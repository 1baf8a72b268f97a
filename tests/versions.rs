use tlaplus_cli::version::{key_greater, newer_than, numeric_key};

#[test]
fn numeric_key_reads_components() {
    assert_eq!(numeric_key("1.8.0"), Some(vec![1, 8, 0]));
    assert_eq!(numeric_key("007"), Some(vec![7]));
    assert_eq!(numeric_key("999999999999999999"), Some(vec![999999999999999999]));
}

#[test]
fn non_numeric_versions_have_no_key() {
    for v in ["", ".", "1.", ".1", "1..2", "1.8.0-rc1", "1234567890123456789"] {
        assert_eq!(numeric_key(v), None, "{}", v);
    }
}

#[test]
fn numeric_versions_compare_by_numbers() {
    assert!(newer_than("1.10.0", "1.9.0"));
    assert!(!newer_than("1.9.0", "1.10.0"));
    assert!(newer_than("1.8.1", "1.8"));
    assert!(!newer_than("1.8", "1.8"));
    assert!(!newer_than("01.8", "1.8"));
}

#[test]
fn other_versions_are_newer_when_different() {
    assert!(newer_than("1.8.0-rc1", "1.7.0"));
    assert!(newer_than("1.7.0", "1.8.0-rc1"));
    assert!(!newer_than("nightly", "nightly"));
}

#[test]
fn key_order_is_lexicographic() {
    assert!(key_greater(&vec![2], &vec![1, 9]));
    assert!(key_greater(&vec![1, 0], &vec![1]));
    assert!(!key_greater(&vec![1], &vec![1, 0]));
    assert!(!key_greater(&vec![], &vec![]));
}
