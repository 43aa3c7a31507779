use modelfit::text::{contains_str, last_segment_of, starts_with, str_eq};

#[test]
fn prefixes() {
    assert!(starts_with("UD-Q4_K_M", "UD-"));
    assert!(!starts_with("Q4_K_M", "UD-"));
    assert!(starts_with("x", ""));
    assert!(!starts_with("", "x"));
}

#[test]
fn substrings() {
    assert!(contains_str("m-UD-Q4_K_M.gguf", "-UD-Q4_K_M"));
    assert!(!contains_str("m-Q4_K_M.gguf", "-UD-Q4_K_M"));
    assert!(contains_str("abc", ""));
    assert!(contains_str("abc", "abc"));
    assert!(!contains_str("ab", "abc"));
}

#[test]
fn last_segments() {
    assert_eq!(last_segment_of("a/b/c.gguf"), "c.gguf");
    assert_eq!(last_segment_of("c.gguf"), "c.gguf");
    assert_eq!(last_segment_of("a/b/"), "");
    assert_eq!(last_segment_of("héé/ü-x"), "ü-x");
}

#[test]
fn string_equality() {
    assert!(str_eq("qwen", "qwen"));
    assert!(!str_eq("qwen", "qwen3"));
    assert!(!str_eq("qwen", "qwem"));
}
