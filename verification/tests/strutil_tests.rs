//! Tests of the string helpers the library exposes.

use gtk_cursor_navigator::split_whitespace_vec;
use gtk_cursor_navigator::str_starts_with;

#[test]
fn split_drops_all_delimiter_runs() {
    assert_eq!(split_whitespace_vec("a bb  ccc"), vec!["a", "bb", "ccc"]);
    assert_eq!(split_whitespace_vec("  leading and trailing  "), vec!["leading", "and", "trailing"]);
    assert_eq!(split_whitespace_vec("\t\n\r "), Vec::<String>::new());
    assert_eq!(split_whitespace_vec(""), Vec::<String>::new());
    assert_eq!(split_whitespace_vec("one"), vec!["one"]);
}

#[test]
fn starts_with_prefixes_only() {
    assert!(str_starts_with("QE", "Q"));
    assert!(str_starts_with("QE", "QE"));
    assert!(str_starts_with("QE", ""));
    assert!(!str_starts_with("QE", "E"));
    assert!(!str_starts_with("Q", "QE"));
}
