use modelfit::get::{select_files, RepoFile};

fn rf(path: &str, size: u64) -> RepoFile {
    RepoFile {
        path: path.into(),
        size,
    }
}

#[test]
fn plain_quant_does_not_match_ud_variant() {
    let files = vec![
        rf("gemma-4-E4B-it-Q4_K_M.gguf", 10),
        rf("gemma-4-E4B-it-UD-Q4_K_M.gguf", 11),
    ];
    let picked = select_files(&files, "Q4_K_M");
    assert_eq!(picked.len(), 1);
    assert_eq!(picked[0].path, "gemma-4-E4B-it-Q4_K_M.gguf");
}

#[test]
fn ud_quant_matches_only_ud() {
    let files = vec![rf("m-Q4_K_M.gguf", 10), rf("m-UD-Q4_K_M.gguf", 11)];
    let picked = select_files(&files, "UD-Q4_K_M");
    assert_eq!(picked.len(), 1);
    assert_eq!(picked[0].path, "m-UD-Q4_K_M.gguf");
}

#[test]
fn shards_and_subfolders_match() {
    let files = vec![
        rf("UD-Q4_K_XL/Big-UD-Q4_K_XL-00001-of-00002.gguf", 10),
        rf("UD-Q4_K_XL/Big-UD-Q4_K_XL-00002-of-00002.gguf", 10),
        rf("Q8_0/Big-Q8_0.gguf", 99),
        rf("mmproj-BF16.gguf", 5),
    ];
    let picked = select_files(&files, "UD-Q4_K_XL");
    assert_eq!(picked.len(), 2);
}

#[test]
fn selection_keeps_listing_order_and_sizes() {
    let files = vec![
        rf("a/M-Q8_0-00002-of-00002.gguf", 7),
        rf("a/M-Q4_K_M.gguf", 3),
        rf("a/M-Q8_0-00001-of-00002.gguf", 5),
    ];
    let picked = select_files(&files, "Q8_0");
    assert_eq!(picked.len(), 2);
    assert_eq!(picked[0].path, "a/M-Q8_0-00002-of-00002.gguf");
    assert_eq!(picked[0].size, 7);
    assert_eq!(picked[1].path, "a/M-Q8_0-00001-of-00002.gguf");
    assert_eq!(picked[1].size, 5);
}

#[test]
fn quant_in_folder_name_alone_does_not_match() {
    // Only the file name counts, not the folder that holds it.
    let files = vec![rf("Q4_K_M-files/readme-Q4_K_M", 1), rf("-Q4_K_M./x.gguf", 2)];
    let picked = select_files(&files, "Q4_K_M");
    assert_eq!(picked.len(), 0);
}

#[test]
fn empty_listing_selects_nothing() {
    let files: Vec<RepoFile> = vec![];
    assert!(select_files(&files, "Q4_K_M").is_empty());
}
