use gpm2op::error::Error;
use gpm2op::text::{contains, first_line_of, is_blank, push_decimal, trim};

#[test]
fn trim_removes_unicode_whitespace_at_both_ends() {
    assert_eq!(trim("\u{3000}\t a b \u{a0}\n"), "a b");
    assert_eq!(trim("   "), "");
    assert_eq!(trim("x"), "x");
    assert!(is_blank(" \u{2028} "));
    assert!(!is_blank(" . "));
}

#[test]
fn contains_and_first_line() {
    assert!(contains("abc", ""));
    assert!(contains("abcabd", "abd"));
    assert!(!contains("ab", "abc"));
    assert_eq!(first_line_of(""), None);
    assert_eq!(first_line_of("one\ntwo").as_deref(), Some("one"));
    assert_eq!(first_line_of("one").as_deref(), Some("one"));
}

#[test]
fn decimal_numbers() {
    let mut s = String::from("row ");
    push_decimal(&mut s, 0);
    assert_eq!(s, "row 0");
    let mut t = String::new();
    push_decimal(&mut t, 1204);
    assert_eq!(t, "1204");
}

#[test]
fn error_messages() {
    assert_eq!(Error::Csv("bad".into()).message(), "could not read the CSV export: bad");
    assert_eq!(Error::Op("x".into()).message(), "`op` reported an error:\nx");
    assert!(Error::OpNotSignedIn.message().contains("eval $(op signin)"));
}
