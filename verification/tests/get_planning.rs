use modelfit::catalog::{check_schema, Catalog, CatalogError, Launch, ModelEntry};
use modelfit::get::{
    auth_header,
    choose_files, display_name, drift_exceeds, gguf_files, local_file_name, pick_entry,
    resolve_url, start_download, target_dir, total_size, tree_url, DownloadStart, GetError,
    GetOptions, ListingEntry, Progress, RepoFile, TargetDir,
};
use modelfit::recommend::Real;

fn entry(id: &str, repo: Option<&str>) -> ModelEntry {
    ModelEntry {
        id: id.to_string(),
        display_name: id.to_uppercase(),
        description: String::new(),
        repo: repo.map(|r| r.to_string()),
        quant: "Q4_K_M".to_string(),
        size_bytes: Some(1),
        quality: 10,
        decode_fraction: Real { bits: 1.0f64.to_bits() },
        tier_hint: None,
        launch: Some(Launch { args: "-c 4096".to_string(), samplers: "--temp 1.0".to_string(), tested: false }),
    }
}

fn cat() -> Catalog {
    Catalog {
        schema_version: 1,
        models: vec![entry("a", Some("org/a")), entry("b", None), entry("a", None), entry("c", Some("org/c"))],
    }
}

#[test]
fn schema_version_one_is_accepted() {
    let c = check_schema(cat()).unwrap();
    assert_eq!(c.models.len(), 4);
    let mut other = cat();
    other.schema_version = 2;
    assert_eq!(check_schema(other).err(), Some(CatalogError::UnsupportedSchema(2)));
}

#[test]
fn asked_id_wins_over_the_pick() {
    let opts = GetOptions { id: Some("c"), dir: None };
    assert_eq!(pick_entry(&cat(), Some("a"), &opts).unwrap(), 3);
    let opts = GetOptions { id: None, dir: None };
    assert_eq!(pick_entry(&cat(), Some("a"), &opts).unwrap(), 0);
}

#[test]
fn get_errors_for_missing_id_entry_or_repo() {
    let none = GetOptions { id: None, dir: None };
    assert!(matches!(pick_entry(&cat(), None, &none), Err(GetError::NothingToGet)));
    let opts = GetOptions { id: Some("zzz"), dir: None };
    match pick_entry(&cat(), None, &opts) {
        Err(GetError::NotInCatalogue(id)) => assert_eq!(id, "zzz"),
        other => panic!("unexpected {:?}", other),
    }
    match pick_entry(&cat(), Some("b"), &none) {
        Err(GetError::NoRepo(id)) => assert_eq!(id, "b"),
        other => panic!("unexpected {:?}", other),
    }
}

fn rf(path: &str, size: u64) -> RepoFile {
    RepoFile { path: path.to_string(), size }
}

#[test]
fn no_matching_files_is_an_error() {
    let files = vec![rf("m-Q8_0.gguf", 1)];
    match choose_files(&files, "Q4_K_M", "org/m") {
        Err(GetError::NoMatchingFiles { quant, repo }) => {
            assert_eq!(quant, "Q4_K_M");
            assert_eq!(repo, "org/m");
        }
        other => panic!("unexpected {:?}", other),
    }
    let chosen = choose_files(&files, "Q8_0", "org/m").unwrap();
    assert_eq!(chosen.len(), 1);
}

#[test]
fn total_size_sums_or_overflows() {
    assert_eq!(total_size(&[rf("a", 3), rf("b", 4)]), Some(7));
    assert_eq!(total_size(&[]), Some(0));
    assert_eq!(total_size(&[rf("a", u64::MAX), rf("b", 1)]), None);
}

#[test]
fn drift_beyond_five_percent() {
    assert!(drift_exceeds(106, 100));
    assert!(!drift_exceeds(105, 100));
    assert!(drift_exceeds(94, 100));
    assert!(!drift_exceeds(0, 0));
    assert!(drift_exceeds(1, 0));
    for (t, e) in [(21_000_000_000u64, 20_000_000_000u64), (20_999_999_999, 20_000_000_000), (19_000_000_000, 20_000_000_000)] {
        let drift = (t as f64 - e as f64).abs() / e as f64;
        assert_eq!(drift_exceeds(t, e), drift > 0.05);
    }
}

#[test]
fn local_names_are_file_names() {
    assert_eq!(local_file_name("UD-Q4_K_XL/Big-UD-Q4_K_XL-00001-of-00002.gguf").unwrap(), "Big-UD-Q4_K_XL-00001-of-00002.gguf");
    assert_eq!(local_file_name("m.gguf").unwrap(), "m.gguf");
    match local_file_name("x/..") {
        Err(GetError::BadRepoPath(p)) => assert_eq!(p, "x/.."),
        other => panic!("unexpected {:?}", other),
    }
}

#[test]
fn display_name_falls_back_to_the_path() {
    assert_eq!(display_name("/home/u/models/m.gguf"), "m.gguf");
    assert_eq!(display_name(".."), "..");
}

#[test]
fn download_start_skip_resume_fresh_or_error() {
    assert!(matches!(start_download(10, 10), Ok(DownloadStart::AlreadyComplete)));
    assert!(matches!(start_download(0, 10), Ok(DownloadStart::Fresh)));
    assert!(matches!(start_download(4, 10), Ok(DownloadStart::Resume(4))));
    assert!(matches!(start_download(11, 10), Err(GetError::LargerThanExpected { existing: 11, size: 10 })));
    assert!(matches!(start_download(0, 0), Ok(DownloadStart::AlreadyComplete)));
}

#[test]
fn progress_shows_each_new_percentage_once() {
    let mut p = Progress::new(0);
    assert_eq!(p.advance(1, 200), Some(0));
    assert_eq!(p.advance(0, 200), None);
    assert_eq!(p.advance(1, 200), Some(1));
    assert_eq!(p.advance(1, 200), None);
    assert!(matches!(p.finish(200), Err(GetError::Incomplete { done: 3, size: 200 })));
    assert_eq!(p.advance(197, 200), Some(100));
    assert!(p.finish(200).is_ok());
}

#[test]
fn resumed_progress_starts_at_existing() {
    let mut p = Progress::new(50);
    assert_eq!(p.done, 50);
    assert_eq!(p.advance(25, 100), Some(75));
}

#[test]
fn target_dir_choice() {
    assert!(matches!(target_dir(Some("/x"), Some("/h".to_string()), None), Ok(TargetDir::Given(d)) if d == "/x"));
    assert!(matches!(target_dir(None, Some("/h".to_string()), Some("/p".to_string())), Ok(TargetDir::ModelsUnder(d)) if d == "/h"));
    assert!(matches!(target_dir(None, None, Some("/p".to_string())), Ok(TargetDir::ModelsUnder(d)) if d == "/p"));
    assert!(matches!(target_dir(None, None, None), Err(GetError::NoHomeDir)));
}

#[test]
fn hugging_face_urls() {
    assert_eq!(tree_url("unsloth/M-GGUF"), "https://huggingface.co/api/models/unsloth/M-GGUF/tree/main?recursive=true");
    assert_eq!(resolve_url("unsloth/M-GGUF", "Q8_0/M-Q8_0.gguf"), "https://huggingface.co/unsloth/M-GGUF/resolve/main/Q8_0/M-Q8_0.gguf");
}

#[test]
fn listing_keeps_gguf_entries_with_sizes() {
    let e = |p: Option<&str>, s: Option<u64>| ListingEntry { path: p.map(|x| x.to_string()), size: s };
    let listing = vec![
        e(Some("README.md"), Some(1)),
        e(Some("a/M-Q8_0.gguf"), Some(9)),
        e(Some("M-Q4.gguf"), None),
        e(None, Some(3)),
        e(Some("x.gguf"), Some(2)),
        e(Some("gguf"), Some(2)),
    ];
    let files = gguf_files(&listing);
    assert_eq!(files.len(), 2);
    assert_eq!(files[0].path, "a/M-Q8_0.gguf");
    assert_eq!(files[0].size, 9);
    assert_eq!(files[1].path, "x.gguf");
}

#[test]
fn bearer_header_only_for_a_non_empty_token() {
    assert_eq!(auth_header(Some("hf_abc".to_string())), Some("Bearer hf_abc".to_string()));
    assert_eq!(auth_header(Some(String::new())), None);
    assert_eq!(auth_header(None), None);
}
