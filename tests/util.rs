use matching::names::{filter_filename, is_year};
use matching::util::{join, parse};

#[test]
fn util_test_join() {
    assert_eq!(
        join(&["abc", "def", "jih"], "--"),
        "abc--def--jih".to_string()
    );
}

#[test]
fn util_test_join_empty() {
    assert_eq!(join(&[""], "-"), "".to_string());
}

#[test]
fn test_join() {
    assert_eq!(
        join(&["abc", "def", "jih"], "--"),
        "abc--def--jih".to_string()
    );
}

#[test]
fn test_join_empty() {
    assert_eq!(join(&[""], "-"), "".to_string());
}

#[test]
fn join_of_nothing_is_empty() {
    assert_eq!(join(&[], ", "), "".to_string());
    assert_eq!(join(&["one"], ", "), "one".to_string());
}

#[test]
fn test_is_year() {
    assert!(is_year("2009"));
    assert!(!is_year("1080p"));
}

#[test]
fn test_filter_filename() {
    assert_eq!(filter_filename("2001: A Space"), "2001_ A Space");
    assert_eq!(filter_filename("file ends with . "), "file ends with");
}

#[test]
fn filter_replaces_control_characters() {
    assert_eq!(filter_filename("a\tb*c?"), "a_b_c_");
    assert_eq!(filter_filename(" . "), "");
}

#[test]
fn parse_reads_decimal_numbers() {
    assert_eq!(parse("2005"), Some(2005));
    assert_eq!(parse("007"), Some(7));
    assert_eq!(parse("2147483647"), Some(2147483647));
    assert_eq!(parse("2147483648"), None);
    assert_eq!(parse(""), None);
    assert_eq!(parse("12a"), None);
    assert_eq!(parse("-5"), Some(-5));
    assert_eq!(parse("+5"), Some(5));
    assert_eq!(parse("-"), None);
    assert_eq!(parse("+"), None);
    assert_eq!(parse("+-5"), None);
    assert_eq!(parse("-2147483648"), Some(-2147483648));
    assert_eq!(parse("-2147483649"), None);
    assert_eq!(parse("+2147483647"), Some(2147483647));
}
