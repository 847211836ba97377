use random_ramble::text;

#[test]
fn center_pads_like_format() {
    assert_eq!(text::center("ab", 6), format!("{:^6}", "ab"));
    assert_eq!(text::center("abc", 6), format!("{:^6}", "abc"));
    assert_eq!(text::center("Tímido", 12), format!("{:^12}", "Tímido"));
    assert_eq!(text::center("toolongforwidth", 4), "toolongforwidth");
    assert_eq!(text::center("", 3), "   ");
}

#[test]
fn decimal_string_matches_format() {
    for n in [0usize, 7, 10, 42, 1234567890] {
        assert_eq!(text::decimal_string(n), n.to_string());
    }
}

#[test]
fn split_lines_like_a_line_reader() {
    assert_eq!(text::split_lines(""), Vec::<String>::new());
    assert_eq!(text::split_lines("a\nb"), vec!["a", "b"]);
    assert_eq!(text::split_lines("a\r\nb\n"), vec!["a", "b"]);
    assert_eq!(text::split_lines("a\n\nb\n"), vec!["a", "", "b"]);
    assert_eq!(text::split_lines("a\r"), vec!["a\r"]);
}

#[test]
fn split_whitespace_like_std() {
    let s = "  foo\tbar \n baz\u{3000}qux  ";
    let expected: Vec<String> = s.split_whitespace().map(String::from).collect();
    assert_eq!(text::split_whitespace(s), expected);
    assert_eq!(text::split_whitespace("   "), Vec::<String>::new());
}

#[test]
fn join_with_separator() {
    let v = vec!["a".to_string(), "b".to_string(), "c".to_string()];
    assert_eq!(text::join(&v, "\n"), "a\nb\nc");
    assert_eq!(text::join(&Vec::new(), ","), "");
}

#[test]
fn prefix_and_contains() {
    assert!(text::starts_with("Adventurous", "Adv"));
    assert!(!text::starts_with("Adv", "Adventurous"));
    assert!(text::contains_str("{{ adjs }}", "adjs"));
    assert!(!text::contains_str("{{ adj }}", "adjs"));
    assert!(text::str_eq("é", "é"));
    assert!(!text::str_eq("a", "b"));
}

#[test]
fn pattern_is_case_insensitive() {
    assert!(text::pattern_matches("Adventurous", Some("adv")));
    assert!(text::pattern_matches("ÉTÉ", Some("été")));
    assert!(!text::pattern_matches("bar", Some("a")));
    assert!(text::pattern_matches("anything", None));
    assert_eq!(text::to_lowercase("ÀB"), "àb");
}

#[test]
fn whitespace_chars() {
    for c in ['\t', '\n', ' ', '\u{85}', '\u{a0}', '\u{2003}', '\u{3000}', 'a', '_', '\u{200b}'] {
        assert_eq!(text::is_whitespace(c), c.is_whitespace(), "{:?}", c);
    }
}
