use apollo_kit::text::{decimal_text, join_with};

#[test]
fn join_with_separator() {
    let items = vec!["GET".to_string(), "POST".to_string(), "OPTIONS".to_string()];
    assert_eq!(join_with(&items, ", "), "GET, POST, OPTIONS");
    assert_eq!(join_with(&vec!["one".to_string()], ", "), "one");
    assert_eq!(join_with(&vec![], ", "), "");
}

#[test]
fn decimal_rendering() {
    assert_eq!(decimal_text(0), "0");
    assert_eq!(decimal_text(7), "7");
    assert_eq!(decimal_text(3600), "3600");
    assert_eq!(decimal_text(86400), "86400");
    assert_eq!(decimal_text(u64::MAX), u64::MAX.to_string());
}
