//! Planning a download of a catalogue model: which repo files are wanted,
//! where they go, and how each transfer starts, advances and ends.
use vstd::prelude::*;
use vstd::string::*;
use crate::catalog::{Catalog, ModelEntry};
use crate::text::{occurs_at, contains, contains_str, is_prefix, last_segment, last_segment_of, starts_with, str_eq};

verus! {

/// A file of a model repository, as its listing names it.
#[derive(Debug)]
pub struct RepoFile {
    pub path: String,
    pub size: u64,
}

impl View for RepoFile {
    type V = (Seq<char>, u64);

    open spec fn view(&self) -> (Seq<char>, u64) {
        (self.path@, self.size)
    }
}

/// `name` carries the quant as a whole dash-delimited tag: `-QUANT.` (a
/// single file) or `-QUANT-` (a shard).
pub open spec fn has_quant_tag(name: Seq<char>, quant: Seq<char>) -> bool {
    contains(name, seq!['-'] + quant + seq!['.']) || contains(name, seq!['-'] + quant + seq!['-'])
}

/// The "UD-" trap: for a plain quant (one that does not start with `UD-`),
/// a name carrying `-UD-QUANT` is a file of the dynamic UD variant.
pub open spec fn is_ud_variant_of(name: Seq<char>, quant: Seq<char>) -> bool {
    !is_prefix(seq!['U', 'D', '-'], quant) && contains(name, seq!['-', 'U', 'D', '-'] + quant)
}

/// A file at `path` belongs to the catalogue quant `quant`: judged on the
/// file name (the last path segment), it carries the quant tag and is not
/// the UD variant of a plain quant.
pub open spec fn wanted(path: Seq<char>, quant: Seq<char>) -> bool {
    let name = last_segment(path);
    has_quant_tag(name, quant) && !is_ud_variant_of(name, quant)
}

/// The predicate of `wanted` on a listing entry.
pub open spec fn wanted_entry(quant: Seq<char>) -> spec_fn((Seq<char>, u64)) -> bool {
    |e: (Seq<char>, u64)| wanted(e.0, quant)
}

/// The views of a list of repo files.
pub open spec fn repo_views(files: Seq<RepoFile>) -> Seq<(Seq<char>, u64)> {
    files.map_values(|f: RepoFile| f@)
}

fn quant_tag(quant: &str, end: &str) -> (r: String)
    ensures
        r@ == seq!['-'] + quant@ + end@,
{
    let mut s = String::from_str("-");
    proof {
        reveal_strlit("-");
    }
    s.append(quant);
    s.append(end);
    s
}

/// Files matching the catalogue quant, in listing order. "Q4_K_M" must not
/// match "UD-Q4_K_M" files; single files (`-QUANT.gguf`) and shards
/// (`-QUANT-00001-of-0000N.gguf`) both match, in any subfolder.
pub fn select_files(files: &[RepoFile], quant: &str) -> (r: Vec<RepoFile>)
    ensures
        repo_views(r@) == repo_views(files@).filter(wanted_entry(quant@)),
{
    let single = quant_tag(quant, ".");
    let shard = quant_tag(quant, "-");
    let mut ud = String::from_str("-UD-");
    ud.append(quant);
    let plain = !starts_with(quant, "UD-");
    proof {
        reveal_strlit(".");
        reveal_strlit("-");
        reveal_strlit("-UD-");
        reveal_strlit("UD-");
        assert(single@ == seq!['-'] + quant@ + seq!['.']);
        assert(shard@ == seq!['-'] + quant@ + seq!['-']);
        assert(ud@ == seq!['-', 'U', 'D', '-'] + quant@);
        assert("UD-"@ == seq!['U', 'D', '-']);
    }
    let mut out: Vec<RepoFile> = Vec::new();
    let mut i: usize = 0;
    while i < files.len()
        invariant
            i <= files@.len(),
            single@ == seq!['-'] + quant@ + seq!['.'],
            shard@ == seq!['-'] + quant@ + seq!['-'],
            ud@ == seq!['-', 'U', 'D', '-'] + quant@,
            plain == !is_prefix(seq!['U', 'D', '-'], quant@),
            repo_views(out@) == repo_views(files@.take(i as int)).filter(wanted_entry(quant@)),
        decreases files@.len() - i,
    {
        let f = &files[i];
        let name = last_segment_of(f.path.as_str());
        let matches = contains_str(name, single.as_str()) || contains_str(name, shard.as_str());
        let ud_trap = plain && contains_str(name, ud.as_str());
        let keep = matches && !ud_trap;
        assert(keep == wanted(f.path@, quant@));
        proof {
            let pre = files@.take(i as int);
            assert(files@.take(i + 1) =~= pre.push(files@[i as int]));
            assert(repo_views(pre.push(files@[i as int])) =~= repo_views(pre).push(f@));
            repo_views(pre).lemma_filter_push(f@, wanted_entry(quant@));
        }
        if keep {
            let copy = RepoFile { path: f.path.clone(), size: f.size };
            let ghost before = out@;
            out.push(copy);
            assert(repo_views(out@) =~= repo_views(before).push(f@));
        }
        i = i + 1;
    }
    assert(files@.take(files@.len() as int) =~= files@);
    out
}


/// What `modelfit get` was asked for.
pub struct GetOptions<'a> {
    /// Catalogue id to fetch; None = the recommendation's pick.
    pub id: Option<&'a str>,
    /// Target directory; None = ~/models.
    pub dir: Option<&'a str>,
}

/// Why a download cannot go on.
#[derive(Debug)]
pub enum GetError {
    /// No id was given and nothing was picked.
    NothingToGet,
    /// The id names no catalogue entry.
    NotInCatalogue(String),
    /// The catalogue entry of this id has no repo.
    NoRepo(String),
    /// No file of the repo matches the catalogue quant.
    NoMatchingFiles { quant: String, repo: String },
    /// A repo path has no file name.
    BadRepoPath(String),
    /// Neither a directory was given nor a home directory found.
    NoHomeDir,
    /// A local file is larger than the repo file it should be.
    LargerThanExpected { existing: u64, size: u64 },
    /// The transfer ended before the whole file arrived.
    Incomplete { done: u64, size: u64 },
}

/// The id to fetch: the one asked for, else the pick.
pub open spec fn chosen_id(asked: Option<&str>, picked: Option<&str>) -> Option<Seq<char>> {
    match asked {
        Some(id) => Some(id@),
        None => match picked {
            Some(id) => Some(id@),
            None => None,
        },
    }
}

/// `i` is the first catalogue entry with this id.
pub open spec fn first_with_id(models: Seq<ModelEntry>, id: Seq<char>, i: int) -> bool {
    &&& 0 <= i < models.len()
    &&& models[i].id@ == id
    &&& forall|j: int| 0 <= j < i ==> models[j].id@ != id
}

/// The catalogue entry to download: the first entry whose id is the one asked
/// for, else the pick's; it must have a repo.
pub fn pick_entry(cat: &Catalog, picked_id: Option<&str>, opts: &GetOptions) -> (r: Result<
    usize,
    GetError,
>)
    ensures
        match chosen_id(opts.id, picked_id) {
            None => r matches Err(GetError::NothingToGet),
            Some(id) => match r {
                Ok(i) => first_with_id(cat.models@, id, i as int) && cat.models@[i as int].repo is Some,
                Err(GetError::NoRepo(s)) => s@ == id && exists|i: int|
                    first_with_id(cat.models@, id, i) && cat.models@[i].repo is None,
                Err(GetError::NotInCatalogue(s)) => s@ == id && forall|i: int|
                    0 <= i < cat.models@.len() ==> cat.models@[i].id@ != id,
                Err(_) => false,
            },
        },
{
    let id = match opts.id {
        Some(id) => id,
        None => match picked_id {
            Some(id) => id,
            None => return Err(GetError::NothingToGet),
        },
    };
    let mut i: usize = 0;
    while i < cat.models.len()
        invariant
            i <= cat.models@.len(),
            chosen_id(opts.id, picked_id) == Some(id@),
            forall|j: int| 0 <= j < i ==> cat.models@[j].id@ != id@,
        decreases cat.models@.len() - i,
    {
        if str_eq(cat.models[i].id.as_str(), id) {
            assert(first_with_id(cat.models@, id@, i as int));
            if cat.models[i].repo.is_some() {
                return Ok(i);
            }
            assert(exists|k: int|
                first_with_id(cat.models@, id@, k) && cat.models@[k].repo is None) by {
                assert(first_with_id(cat.models@, id@, i as int) && cat.models@[i as int].repo is None);
            }
            return Err(GetError::NoRepo(String::from_str(id)));
        }
        i = i + 1;
    }
    Err(GetError::NotInCatalogue(String::from_str(id)))
}

/// The repo files wanted for the catalogue quant; it is an error when none is.
pub fn choose_files(files: &[RepoFile], quant: &str, repo: &str) -> (r: Result<
    Vec<RepoFile>,
    GetError,
>)
    ensures
        repo_views(files@).filter(wanted_entry(quant@)).len() == 0 ==> (r matches Err(
            GetError::NoMatchingFiles { quant: q, repo: rp },
        ) && q@ == quant@ && rp@ == repo@),
        repo_views(files@).filter(wanted_entry(quant@)).len() > 0 ==> (r matches Ok(v)
            && repo_views(v@) == repo_views(files@).filter(wanted_entry(quant@))),
{
    let wanted = select_files(files, quant);
    if wanted.len() == 0 {
        assert(repo_views(wanted@).len() == 0);
        return Err(
            GetError::NoMatchingFiles { quant: String::from_str(quant), repo: String::from_str(repo) },
        );
    }
    assert(repo_views(wanted@).len() > 0);
    Ok(wanted)
}

/// The total size of a list of repo files.
pub open spec fn sum_sizes(files: Seq<RepoFile>) -> int
    decreases files.len(),
{
    if files.len() == 0 {
        0
    } else {
        sum_sizes(files.drop_last()) + files.last().size
    }
}

proof fn lemma_sum_sizes_prefix(files: Seq<RepoFile>, n: int)
    requires
        0 <= n <= files.len(),
    ensures
        sum_sizes(files.take(n)) <= sum_sizes(files),
    decreases files.len() - n,
{
    if n < files.len() {
        assert(files.take(n + 1).drop_last() =~= files.take(n));
        lemma_sum_sizes_prefix(files, n + 1);
    } else {
        assert(files.take(n) =~= files);
    }
}

/// The total size of the files to fetch; None when it exceeds 64 bits.
pub fn total_size(files: &[RepoFile]) -> (r: Option<u64>)
    ensures
        r == (if sum_sizes(files@) <= u64::MAX {
            Some(sum_sizes(files@) as u64)
        } else {
            None
        }),
{
    let mut total: u64 = 0;
    let mut i: usize = 0;
    while i < files.len()
        invariant
            i <= files@.len(),
            total == sum_sizes(files@.take(i as int)),
        decreases files@.len() - i,
    {
        assert(files@.take(i + 1).drop_last() =~= files@.take(i as int));
        match total.checked_add(files[i].size) {
            Some(t) => total = t,
            None => {
                proof {
                    lemma_sum_sizes_prefix(files@, i + 1);
                }
                return None;
            },
        }
        i = i + 1;
    }
    assert(files@.take(files@.len() as int) =~= files@);
    Some(total)
}

/// The repo's total and the catalogue's size differ by more than 5% of the
/// catalogue's size.
pub open spec fn drifts(total: int, expected: int) -> bool {
    20 * (if total >= expected {
        total - expected
    } else {
        expected - total
    }) > expected
}

/// Do the repo's files and the catalogue's size disagree by more than 5%?
/// The repo is the truth; a disagreement is worth a warning.
pub fn drift_exceeds(total: u64, expected: u64) -> (r: bool)
    ensures
        r == drifts(total as int, expected as int),
{
    let diff = if total >= expected {
        total - expected
    } else {
        expected - total
    };
    let r = diff > expected / 20;
    assert(r == (20 * diff > expected)) by (nonlinear_arith)
        requires
            r == (diff > expected / 20),
    {
        let q = expected / 20;
        assert(expected == 20 * q + expected % 20);
    }
    r
}

/// The final component of a path as `std::path::Path::file_name` gives it.
pub uninterp spec fn path_file_name(path: Seq<char>) -> Option<Seq<char>>;

/// The path is `..` or ends in `/..`.
pub open spec fn ends_in_parent(path: Seq<char>) -> bool {
    path == ".."@ || is_suffix("/.."@, path)
}

/// Calls `std::path::Path::file_name` on `path`. Its documentation: the
/// final component of the path, if there is one (the file or directory
/// name), and None when the path terminates in `..`. The contract names the
/// result and states the `..` case; which component is final depends on the
/// platform's path syntax (separators, prefixes, `.` components), and that
/// is left unsaid.
#[verifier::external_body]
fn file_name_of(path: &str) -> (r: Option<String>)
    ensures
        match r {
            Some(n) => path_file_name(path@) == Some(n@),
            None => path_file_name(path@) is None,
        },
        ends_in_parent(path@) ==> r is None,
{
    match std::path::Path::new(path).file_name() {
        Some(n) => Some(n.to_string_lossy().into_owned()),
        None => None,
    }
}

/// The local file name of a repo file: its path's file name.
pub fn local_file_name(path: &str) -> (r: Result<String, GetError>)
    ensures
        match path_file_name(path@) {
            Some(n) => r matches Ok(s) && s@ == n,
            None => r matches Err(GetError::BadRepoPath(p)) && p@ == path@,
        },
        ends_in_parent(path@) ==> r is Err,
{
    match file_name_of(path) {
        Some(n) => Ok(n),
        None => Err(GetError::BadRepoPath(String::from_str(path))),
    }
}

/// How a path is shown: its file name, else the path itself.
pub fn display_name(p: &str) -> (r: String)
    ensures
        r@ == (match path_file_name(p@) {
            Some(n) => n,
            None => p@,
        }),
{
    match file_name_of(p) {
        Some(n) => n,
        None => String::from_str(p),
    }
}

/// How the transfer of one file starts, given what is already on disk.
#[derive(Clone, Copy, Debug, PartialEq, Eq, Structural)]
pub enum DownloadStart {
    /// The local file is complete: skip it.
    AlreadyComplete,
    /// Append to the partial local file from this byte on (a Range request).
    Resume(u64),
    /// Create the file and fetch it whole.
    Fresh,
}

/// Download with resume: skip if complete, Range-append if partial, fresh
/// otherwise; a local file larger than the repo's is an error.
pub fn start_download(existing: u64, size: u64) -> (r: Result<DownloadStart, GetError>)
    ensures
        existing == size ==> r matches Ok(DownloadStart::AlreadyComplete),
        existing > size ==> (r matches Err(GetError::LargerThanExpected { existing: e, size: s })
            && e == existing && s == size),
        0 < existing < size ==> (r matches Ok(DownloadStart::Resume(from)) && from == existing),
        existing == 0 && size > 0 ==> r matches Ok(DownloadStart::Fresh),
{
    if existing == size {
        return Ok(DownloadStart::AlreadyComplete);
    }
    if existing > size {
        return Err(GetError::LargerThanExpected { existing, size });
    }
    if existing > 0 {
        Ok(DownloadStart::Resume(existing))
    } else {
        Ok(DownloadStart::Fresh)
    }
}

/// The percentage of a transfer shown so far.
pub open spec fn percent(done: int, size: int) -> int {
    done * 100 / size
}

/// The state of one transfer: bytes on disk and the last percentage shown.
#[derive(Debug)]
pub struct Progress {
    pub done: u64,
    pub last_pct: u64,
}

impl Progress {
    /// A transfer that starts with `existing` bytes on disk and has shown
    /// nothing yet.
    pub fn new(existing: u64) -> (r: Progress)
        ensures
            r.done == existing,
            r.last_pct == u64::MAX,
    {
        Progress { done: existing, last_pct: u64::MAX }
    }

    /// `n` more bytes arrived. Returns the percentage to show, when it
    /// changed since it was last shown.
    pub fn advance(&mut self, n: u64, size: u64) -> (shown: Option<u64>)
        requires
            size > 0,
            (old(self).done + n) * 100 <= u64::MAX,
        ensures
            final(self).done == old(self).done + n,
            final(self).last_pct == percent(final(self).done as int, size as int),
            shown == (if percent(final(self).done as int, size as int) != old(self).last_pct {
                Some(percent(final(self).done as int, size as int) as u64)
            } else {
                None
            }),
    {
        self.done = self.done + n;
        let pct = self.done * 100 / size;
        if pct != self.last_pct {
            self.last_pct = pct;
            Some(pct)
        } else {
            None
        }
    }

    /// The transfer ended: complete only when every byte arrived.
    pub fn finish(&self, size: u64) -> (r: Result<(), GetError>)
        ensures
            self.done == size ==> r is Ok,
            self.done != size ==> (r matches Err(GetError::Incomplete { done: d, size: s })
                && d == self.done && s == size),
    {
        if self.done != size {
            return Err(GetError::Incomplete { done: self.done, size });
        }
        Ok(())
    }
}

/// Where downloads go.
#[derive(Debug)]
pub enum TargetDir {
    /// The directory given with `--dir`.
    Given(String),
    /// `models` under this home directory.
    ModelsUnder(String),
}

/// The target directory: the one given, else `models` under the home
/// directory (`HOME`, else `USERPROFILE`).
pub fn target_dir(over: Option<&str>, home: Option<String>, user_profile: Option<String>) -> (r:
    Result<TargetDir, GetError>)
    ensures
        match over {
            Some(d) => r matches Ok(TargetDir::Given(g)) && g@ == d@,
            None => match home {
                Some(h) => r matches Ok(TargetDir::ModelsUnder(m)) && m@ == h@,
                None => match user_profile {
                    Some(u) => r matches Ok(TargetDir::ModelsUnder(m)) && m@ == u@,
                    None => r matches Err(GetError::NoHomeDir),
                },
            },
        },
{
    if let Some(d) = over {
        return Ok(TargetDir::Given(String::from_str(d)));
    }
    match home {
        Some(h) => Ok(TargetDir::ModelsUnder(h)),
        None => match user_profile {
            Some(u) => Ok(TargetDir::ModelsUnder(u)),
            None => Err(GetError::NoHomeDir),
        },
    }
}

/// The Hugging Face tree API listing of a repo, recursive.
pub fn tree_url(repo: &str) -> (r: String)
    ensures
        r@ == "https://huggingface.co/api/models/"@ + repo@ + "/tree/main?recursive=true"@,
{
    let mut u = String::from_str("https://huggingface.co/api/models/");
    u.append(repo);
    u.append("/tree/main?recursive=true");
    u
}

/// The download address of a file of a repo.
pub fn resolve_url(repo: &str, path: &str) -> (r: String)
    ensures
        r@ == "https://huggingface.co/"@ + repo@ + "/resolve/main/"@ + path@,
{
    let mut u = String::from_str("https://huggingface.co/");
    u.append(repo);
    u.append("/resolve/main/");
    u.append(path);
    u
}

/// One entry of a repo listing, with what it holds of a path and a size.
#[derive(Debug)]
pub struct ListingEntry {
    pub path: Option<String>,
    pub size: Option<u64>,
}

impl View for ListingEntry {
    type V = (Option<Seq<char>>, Option<u64>);

    open spec fn view(&self) -> (Option<Seq<char>>, Option<u64>) {
        (
            match self.path {
                Some(p) => Some(p@),
                None => None,
            },
            self.size,
        )
    }
}

/// `s` ends with `suffix`.
pub open spec fn is_suffix(suffix: Seq<char>, s: Seq<char>) -> bool {
    suffix.len() <= s.len() && s.subrange(s.len() - suffix.len(), s.len() as int) == suffix
}

/// A listing entry is a GGUF file: it has a path ending in `.gguf` and a size.
pub open spec fn is_gguf_entry(e: (Option<Seq<char>>, Option<u64>)) -> bool {
    e.0 matches Some(p) && is_suffix(".gguf"@, p) && e.1 is Some
}

/// The repo file a GGUF listing entry names.
pub open spec fn entry_file(e: (Option<Seq<char>>, Option<u64>)) -> (Seq<char>, u64) {
    (e.0.unwrap(), e.1.unwrap())
}

/// The views of a listing.
pub open spec fn listing_views(entries: Seq<ListingEntry>) -> Seq<(Option<Seq<char>>, Option<u64>)> {
    entries.map_values(|e: ListingEntry| e@)
}

fn ends_with_gguf(p: &str) -> (r: bool)
    ensures
        r == is_suffix(".gguf"@, p@),
{
    proof {
        reveal_strlit(".gguf");
    }
    let n = p.unicode_len();
    if n < 5 {
        return false;
    }
    let tail = p.substring_char(n - 5, n);
    str_eq(tail, ".gguf")
}

/// The GGUF files of a repo listing, in listing order: entries with a path
/// ending in `.gguf` and a size.
pub fn gguf_files(entries: &[ListingEntry]) -> (r: Vec<RepoFile>)
    ensures
        repo_views(r@) == listing_views(entries@).filter(|e: (Option<Seq<char>>, Option<u64>)|
            is_gguf_entry(e)).map_values(|e: (Option<Seq<char>>, Option<u64>)| entry_file(e)),
{
    let ghost pred = |e: (Option<Seq<char>>, Option<u64>)| is_gguf_entry(e);
    let ghost to_file = |e: (Option<Seq<char>>, Option<u64>)| entry_file(e);
    let mut out: Vec<RepoFile> = Vec::new();
    let mut i: usize = 0;
    while i < entries.len()
        invariant
            i <= entries@.len(),
            pred == (|e: (Option<Seq<char>>, Option<u64>)| is_gguf_entry(e)),
            to_file == (|e: (Option<Seq<char>>, Option<u64>)| entry_file(e)),
            repo_views(out@) == listing_views(entries@.take(i as int)).filter(pred).map_values(
                to_file,
            ),
        decreases entries@.len() - i,
    {
        let e = &entries[i];
        proof {
            let pre = entries@.take(i as int);
            assert(entries@.take(i + 1) =~= pre.push(entries@[i as int]));
            assert(listing_views(pre.push(entries@[i as int])) =~= listing_views(pre).push(e@));
            listing_views(pre).lemma_filter_push(e@, pred);
        }
        match (&e.path, e.size) {
            (Some(p), Some(size)) => {
                if ends_with_gguf(p.as_str()) {
                    let ghost before = out@;
                    let ghost kept = listing_views(entries@.take(i as int)).filter(pred);
                    out.push(RepoFile { path: p.clone(), size });
                    assert(kept.push(e@).map_values(to_file) =~= kept.map_values(to_file).push(
                        to_file(e@),
                    ));
                    assert(repo_views(out@) =~= repo_views(before).push((p@, size)));
                }
            },
            _ => {},
        }
        i = i + 1;
    }
    assert(entries@.take(entries@.len() as int) =~= entries@);
    out
}


/// A plain quant never selects the files of its UD variant.
pub proof fn law_plain_quant_skips_ud_files(path: Seq<char>, quant: Seq<char>)
    requires
        !is_prefix(seq!['U', 'D', '-'], quant),
        contains(last_segment(path), seq!['-', 'U', 'D', '-'] + quant),
    ensures
        !wanted(path, quant),
{
}

/// `n` occurs in `s` at `i`; so does each prefix of `n`.
proof fn lemma_occurs_prefix(s: Seq<char>, n: Seq<char>, m: Seq<char>, i: int)
    requires
        occurs_at(s, n, i),
        is_prefix(m, n),
    ensures
        occurs_at(s, m, i),
{
    assert(s.subrange(i, i + m.len()) =~= n.subrange(0, m.len() as int));
}

/// A UD quant selects only files whose name carries `-UD-` and the rest of
/// the quant: the plain variant's files never match it.
pub proof fn law_ud_quant_needs_ud_tag(path: Seq<char>, q: Seq<char>)
    requires
        wanted(path, seq!['U', 'D', '-'] + q),
    ensures
        contains(last_segment(path), seq!['-', 'U', 'D', '-'] + q),
{
    let name = last_segment(path);
    let quant = seq!['U', 'D', '-'] + q;
    let tag = seq!['-', 'U', 'D', '-'] + q;
    let single = seq!['-'] + quant + seq!['.'];
    let shard = seq!['-'] + quant + seq!['-'];
    assert(is_prefix(tag, single)) by {
        assert(single.subrange(0, tag.len() as int) =~= tag);
    }
    assert(is_prefix(tag, shard)) by {
        assert(shard.subrange(0, tag.len() as int) =~= tag);
    }
    if contains(name, single) {
        let i = choose|i: int| occurs_at(name, single, i);
        lemma_occurs_prefix(name, single, tag, i);
    } else {
        let i = choose|i: int| occurs_at(name, shard, i);
        lemma_occurs_prefix(name, shard, tag, i);
    }
}

/// The authorization header value for gated repos: `Bearer TOKEN` when a
/// non-empty token is set, else none.
pub fn auth_header(token: Option<String>) -> (r: Option<String>)
    ensures
        match token {
            Some(t) => if t@.len() > 0 {
                r matches Some(h) && h@ == "Bearer "@ + t@
            } else {
                r is None
            },
            None => r is None,
        },
{
    match token {
        Some(t) => {
            if t.as_str().unicode_len() == 0 {
                return None;
            }
            let mut h = String::from_str("Bearer ");
            h.append(t.as_str());
            Some(h)
        },
        None => None,
    }
}

/// `n` occurs somewhere in `s`, written out.
pub open spec fn has_substring(s: Seq<char>, n: Seq<char>) -> bool {
    exists|i: int| 0 <= i && i + n.len() <= s.len() && #[trigger] s.subrange(i, i + n.len()) == n
}

/// A file is selected only when its file name carries the quant as a whole
/// tag, `-QUANT.` or `-QUANT-`; and a file whose name carries such a tag is
/// selected unless the quant is plain and the name also carries `-UD-QUANT`.
pub proof fn law_selected_names_carry_the_tag(path: Seq<char>, quant: Seq<char>)
    ensures
        wanted(path, quant) ==> (has_substring(last_segment(path), seq!['-'] + quant + seq!['.'])
            || has_substring(last_segment(path), seq!['-'] + quant + seq!['-'])),
        ((has_substring(last_segment(path), seq!['-'] + quant + seq!['.']) || has_substring(
            last_segment(path),
            seq!['-'] + quant + seq!['-'],
        )) && ((quant.len() >= 3 && quant.subrange(0, 3) == seq!['U', 'D', '-'])
            || !has_substring(last_segment(path), seq!['-', 'U', 'D', '-'] + quant)))
            ==> wanted(path, quant),
{
    let name = last_segment(path);
    let single = seq!['-'] + quant + seq!['.'];
    let shard = seq!['-'] + quant + seq!['-'];
    let ud = seq!['-', 'U', 'D', '-'] + quant;
    assert(contains(name, single) == has_substring(name, single)) by {
        if contains(name, single) {
            let i = choose|i: int| occurs_at(name, single, i);
            assert(name.subrange(i, i + single.len()) == single);
        }
        if has_substring(name, single) {
            let i = choose|i: int|
                0 <= i && i + single.len() <= name.len() && #[trigger] name.subrange(
                    i,
                    i + single.len(),
                ) == single;
            assert(occurs_at(name, single, i));
        }
    }
    assert(contains(name, shard) == has_substring(name, shard)) by {
        if contains(name, shard) {
            let i = choose|i: int| occurs_at(name, shard, i);
            assert(name.subrange(i, i + shard.len()) == shard);
        }
        if has_substring(name, shard) {
            let i = choose|i: int|
                0 <= i && i + shard.len() <= name.len() && #[trigger] name.subrange(
                    i,
                    i + shard.len(),
                ) == shard;
            assert(occurs_at(name, shard, i));
        }
    }
    assert(contains(name, ud) == has_substring(name, ud)) by {
        if contains(name, ud) {
            let i = choose|i: int| occurs_at(name, ud, i);
            assert(name.subrange(i, i + ud.len()) == ud);
        }
        if has_substring(name, ud) {
            let i = choose|i: int|
                0 <= i && i + ud.len() <= name.len() && #[trigger] name.subrange(i, i + ud.len())
                    == ud;
            assert(occurs_at(name, ud, i));
        }
    }
}

/// The file name of a path is the part after its last `/`: a suffix of the
/// path, holding no `/`, that starts the path or follows a `/`.
pub proof fn law_last_segment_is_the_file_name(s: Seq<char>)
    ensures
        exists|k: int|
            0 <= k <= s.len() && last_segment(s) == s.subrange(k, s.len() as int) && (forall|j: int|
                k <= j < s.len() ==> s[j] != '/') && (k == 0 || s[k - 1] == '/'),
    decreases s.len(),
{
    if s.len() == 0 {
        assert(last_segment(s) == s.subrange(0, 0));
    } else if s.last() == '/' {
        let k = s.len() as int;
        assert(last_segment(s) =~= s.subrange(k, k));
    } else {
        let pre = s.drop_last();
        law_last_segment_is_the_file_name(pre);
        let k = choose|k: int|
            0 <= k <= pre.len() && last_segment(pre) == pre.subrange(k, pre.len() as int) && (forall|
                j: int,
            |
                k <= j < pre.len() ==> pre[j] != '/') && (k == 0 || pre[k - 1] == '/');
        assert(last_segment(s) =~= s.subrange(k, s.len() as int));
        assert(forall|j: int| k <= j < s.len() ==> s[j] != '/') by {
            assert forall|j: int| k <= j < s.len() implies s[j] != '/' by {
                if j < pre.len() {
                    assert(pre[j] == s[j]);
                }
            }
        }
        if k > 0 {
            assert(pre[k - 1] == s[k - 1]);
        }
    }
}

/// A listing entry is kept exactly when it has a size and a path ending in
/// `.gguf`; each kept entry becomes a file with that path and that size, in
/// listing order.
pub proof fn law_gguf_listing(entries: Seq<(Option<Seq<char>>, Option<u64>)>)
    ensures
        forall|e: (Option<Seq<char>>, Option<u64>)|
            #[trigger] is_gguf_entry(e) == (e.0 is Some && e.1 is Some && e.0.unwrap().len() >= 5
                && e.0.unwrap().subrange(e.0.unwrap().len() - 5, e.0.unwrap().len() as int)
                == seq!['.', 'g', 'g', 'u', 'f']),
        ({
            let kept = entries.filter(|e: (Option<Seq<char>>, Option<u64>)| is_gguf_entry(e));
            let files = kept.map_values(|e: (Option<Seq<char>>, Option<u64>)| entry_file(e));
            &&& files.len() == kept.len()
            &&& forall|i: int|
                0 <= i < files.len() ==> kept[i].0 == Some(#[trigger] files[i].0) && kept[i].1 == Some(
                    files[i].1,
                )
        }),
{
    reveal_strlit(".gguf");
    assert(".gguf"@ =~= seq!['.', 'g', 'g', 'u', 'f']);
    let pred = |e: (Option<Seq<char>>, Option<u64>)| is_gguf_entry(e);
    let kept = entries.filter(pred);
    assert forall|i: int| 0 <= i < kept.len() implies pred(kept[i]) by {
        entries.lemma_filter_pred(pred, i);
    }
}

/// A drift above 5% means the repo's total is more than 105% or less than
/// 95% of the catalogue's size.
pub proof fn law_drift_band(total: nat, expected: nat)
    ensures
        drifts(total as int, expected as int) == (20 * total > 21 * expected || 20 * total < 19
            * expected),
{
}

/// The shown percentage is the share of bytes done, rounded down.
pub proof fn law_percent_rounds_down(done: nat, size: nat)
    requires
        size > 0,
    ensures
        percent(done as int, size as int) * size <= 100 * done < (percent(done as int, size as int)
            + 1) * size,
{
    let d = done as int;
    let z = size as int;
    let q = percent(d, z);
    assert(q == (d * 100) / z);
    assert(q * z <= 100 * d < (q + 1) * z) by (nonlinear_arith)
        requires
            z > 0,
            d >= 0,
            q == (d * 100) / z,
    ;
}

/// The total of two lists of files is the sum of their totals.
pub proof fn law_sum_sizes_additive(a: Seq<RepoFile>, b: Seq<RepoFile>)
    ensures
        sum_sizes(a + b) == sum_sizes(a) + sum_sizes(b),
    decreases b.len(),
{
    if b.len() == 0 {
        assert(a + b =~= a);
    } else {
        law_sum_sizes_additive(a, b.drop_last());
        assert((a + b).drop_last() =~= a + b.drop_last());
    }
}

/// The total of no files is 0, and of one file its size.
pub proof fn law_sum_sizes_base(f: RepoFile)
    ensures
        sum_sizes(Seq::<RepoFile>::empty()) == 0,
        sum_sizes(seq![f]) == f.size,
{
    assert(seq![f].drop_last() =~= Seq::<RepoFile>::empty());
}

/// The id asked for wins over the pick; the pick is used only when no id
/// was asked for.
pub proof fn law_asked_id_wins(asked: Option<&str>, picked: Option<&str>)
    ensures
        asked matches Some(a) ==> chosen_id(asked, picked) == Some(a@),
        (asked is None && picked is Some) ==> chosen_id(asked, picked) == Some(picked.unwrap()@),
        (asked is None && picked is None) ==> chosen_id(asked, picked) is None,
{
}

} // verus!
