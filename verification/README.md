# modelfit

Which local AI model should this machine run? The library holds the rules
and proves them with Verus; the program around it detects the hardware,
reads the catalogue, computes predicted decode speeds and downloads files.

- `src/recommend.rs`: the budget a machine offers (margins for the desktop
  and the OS, which GPU, which bandwidth), the fit of a model in it, and the
  pick among the models that fit (best quality above the pleasant floor,
  else the fastest).
- `src/get.rs`: the download plan: which catalogue entry, which repo files
  match the quant, local names, and how each transfer starts, advances and
  ends.
- `src/catalog.rs`: the catalogue and its schema rule.
- `src/text.rs`: the string predicates the matching rules use.
- `app/`: the command-line program (hwprobe, serde, ureq, floating point).
