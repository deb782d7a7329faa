use repo_mirror::text::{
    is_space_char, match_at, parse_number, split_fields, to_chars, to_string, trimmed_is,
};

fn chars(s: &str) -> Vec<char> {
    s.chars().collect()
}

#[test]
fn to_chars_keeps_every_character() {
    assert_eq!(to_chars("a\u{e9}\n z"), vec!['a', '\u{e9}', '\n', ' ', 'z']);
    assert_eq!(to_chars(""), Vec::<char>::new());
}

#[test]
fn to_string_copies_the_range() {
    let line = chars("Package: foo");
    assert_eq!(to_string(&line, 9, 12), "foo");
    assert_eq!(to_string(&line, 0, 7), "Package");
    assert_eq!(to_string(&line, 5, 5), "");
}

#[test]
fn ascii_whitespace_is_space() {
    for c in [' ', '\t', '\n', '\r', '\u{c}'] {
        assert!(is_space_char(c));
    }
    for c in ['a', '0', ':', '\u{a0}', '\u{b}'] {
        assert!(!is_space_char(c));
    }
}

#[test]
fn match_at_finds_the_pattern_only_where_it_stands() {
    let line = chars("Size: 10");
    assert_eq!(match_at(&line, 0, "Size: "), Some(6));
    assert_eq!(match_at(&line, 0, "Size:  "), None);
    assert_eq!(match_at(&line, 1, "ize"), Some(3));
    assert_eq!(match_at(&line, 6, "10"), Some(2));
    assert_eq!(match_at(&line, 6, "100"), None);
    assert_eq!(match_at(&line, 8, ""), Some(0));
}

#[test]
fn trimmed_is_ignores_surrounding_whitespace() {
    assert!(trimmed_is(&chars("SHA256"), "SHA256"));
    assert!(trimmed_is(&chars("  SHA256\t\r"), "SHA256"));
    assert!(!trimmed_is(&chars("SHA256:"), "SHA256"));
    assert!(!trimmed_is(&chars("SHA 256"), "SHA256"));
    assert!(!trimmed_is(&chars(""), "SHA256"));
    assert!(trimmed_is(&chars("   "), ""));
}

#[test]
fn split_fields_gives_the_runs_between_whitespace() {
    assert_eq!(split_fields(&chars(" abc  12\tmain/x ")), vec!["abc", "12", "main/x"]);
    assert_eq!(split_fields(&chars("one")), vec!["one"]);
    assert_eq!(split_fields(&chars("   ")), Vec::<String>::new());
    assert_eq!(split_fields(&chars("")), Vec::<String>::new());
}

#[test]
fn parse_number_reads_decimal_digits() {
    assert_eq!(parse_number(&chars("Size: 1024"), 6), Some(1024));
    assert_eq!(parse_number(&chars("0"), 0), Some(0));
    assert_eq!(parse_number(&chars("007"), 0), Some(7));
    assert_eq!(parse_number(&chars("+15"), 0), Some(15));
    assert_eq!(parse_number(&chars("18446744073709551615"), 0), Some(u64::MAX));
}

#[test]
fn parse_number_refuses_what_is_no_number() {
    assert_eq!(parse_number(&chars(""), 0), None);
    assert_eq!(parse_number(&chars("+"), 0), None);
    assert_eq!(parse_number(&chars("-1"), 0), None);
    assert_eq!(parse_number(&chars("12a"), 0), None);
    assert_eq!(parse_number(&chars(" 12"), 0), None);
    assert_eq!(parse_number(&chars("12 "), 0), None);
    assert_eq!(parse_number(&chars("1_000"), 0), None);
    assert_eq!(parse_number(&chars("18446744073709551616"), 0), None);
    assert_eq!(parse_number(&chars("99999999999999999999999"), 0), None);
    assert_eq!(parse_number(&chars("Size: "), 6), None);
}
