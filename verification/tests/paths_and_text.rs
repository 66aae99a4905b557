use disk_visualizer::paths::{file_name, parent, path_is_absolute, strip_prefix};
use disk_visualizer::text::{
    blank, chars_eq_ignore_ascii_case, i64_to_decimal, parse_i64, parse_u64, u64_to_decimal,
};

#[test]
fn path_pieces_follow_unix_components() {
    assert!(path_is_absolute("/a"));
    assert!(!path_is_absolute("a/b"));
    assert_eq!(strip_prefix("/tmp/sample/a/b", "/tmp/sample"), Some("a/b".to_owned()));
    assert_eq!(strip_prefix("/tmp/samples/a", "/tmp/sample"), None);
    assert_eq!(strip_prefix("/tmp//sample/./a", "/tmp/sample/"), Some("a".to_owned()));
    assert_eq!(file_name("/tmp/sample/a.txt"), Some("a.txt".to_owned()));
    assert_eq!(file_name("/"), None);
    assert_eq!(parent("/tmp/sample/a.txt"), Some("/tmp/sample".to_owned()));
    assert_eq!(parent("/"), None);
}

#[test]
fn decimal_numerals_round_trip() {
    assert_eq!(u64_to_decimal(0), "0");
    assert_eq!(u64_to_decimal(18_446_744_073_709_551_615), "18446744073709551615");
    assert_eq!(i64_to_decimal(i64::MIN), "-9223372036854775808");
    assert_eq!(parse_u64("42"), Some(42));
    assert_eq!(parse_u64("18446744073709551616"), None);
    assert_eq!(parse_u64(""), None);
    assert_eq!(parse_i64("-7"), Some(-7));
    assert_eq!(parse_i64("+7"), Some(7));
    assert_eq!(parse_i64("9223372036854775808"), None);
}

#[test]
fn white_space_and_ascii_case() {
    assert!(blank(""));
    assert!(blank(" \t\n\u{85}\u{a0}\u{2009}\u{3000}"));
    assert!(!blank(" a "));
    assert!(!blank("\u{200b}"));
    assert!(chars_eq_ignore_ascii_case(&vec!['A', 'b', 'Z', '1'], &vec!['a', 'B', 'z', '1']));
    assert!(!chars_eq_ignore_ascii_case(&vec!['\u{c9}'], &vec!['\u{e9}']));
    assert!(!chars_eq_ignore_ascii_case(&vec!['['], &vec!['{']));
    assert!(!chars_eq_ignore_ascii_case(&vec!['a'], &vec!['a', 'a']));
}
