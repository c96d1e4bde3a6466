use life3d::parse::{default_birth, default_stay, parse_counts};

fn parse_str(s: &str) -> Option<Vec<u32>> {
    parse_counts(&s.as_bytes().to_vec())
}

#[test]
fn parses_single_number() {
    assert_eq!(parse_str("5"), Some(vec![5]));
}

#[test]
fn parses_several_numbers() {
    assert_eq!(parse_str("4 5"), Some(vec![4, 5]));
    assert_eq!(parse_str("  3\t44 7\n"), Some(vec![3, 44, 7]));
}

#[test]
fn empty_and_blank_lines_give_no_counts() {
    assert_eq!(parse_str(""), Some(vec![]));
    assert_eq!(parse_str(" \t \n"), Some(vec![]));
}

#[test]
fn leading_zeros_are_accepted() {
    assert_eq!(parse_str("007 0"), Some(vec![7, 0]));
}

#[test]
fn largest_count_fits_and_one_more_does_not() {
    assert_eq!(parse_str("4294967295"), Some(vec![4294967295]));
    assert_eq!(parse_str("4294967296"), None);
    assert_eq!(parse_str("999999999999999999999"), None);
}

#[test]
fn non_digits_are_rejected() {
    assert_eq!(parse_str("x"), None);
    assert_eq!(parse_str("5a"), None);
    assert_eq!(parse_str("4 -5"), None);
    assert_eq!(parse_str("3.5"), None);
    assert_eq!(parse_str("2 3 four"), None);
}

#[test]
fn documented_defaults() {
    assert_eq!(default_birth(), vec![5]);
    assert_eq!(default_stay(), vec![4, 5]);
}
