use liangmu_history::text::{contains_bytes, str_eq};

#[test]
fn contains_bytes_finds_an_inner_run() {
    assert!(contains_bytes(b"hello world", b"lo w"));
    assert!(!contains_bytes(b"hello world", b"low"));
    assert!(contains_bytes(b"abc", b""));
}

#[test]
fn str_eq_compares_contents() {
    assert!(str_eq("abc", "abc"));
    assert!(!str_eq("abc", "abd"));
}
