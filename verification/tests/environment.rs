use forge_core::environment::{merge_environment, parse_environment_file, parse_environment_line, strip_quotes};

#[test]
fn parses_environment_line() {
    let (k, v) = parse_environment_line("FOO=bar baz").unwrap();
    assert_eq!(k, "FOO");
    assert_eq!(v, "bar baz");
}

#[test]
fn parses_environment_quotes() {
    let (k, v) = parse_environment_line("FOO=\"bar baz\"").unwrap();
    assert_eq!(k, "FOO");
    assert_eq!(v, "bar baz");

    let (k, v) = parse_environment_line("FOO='bar'").unwrap();
    assert_eq!(k, "FOO");
    assert_eq!(v, "bar");
}

#[test]
fn lines_without_equals_give_nothing() {
    assert!(parse_environment_line("JUSTAWORD").is_none());
}

#[test]
fn keys_are_trimmed_and_only_the_first_equals_splits() {
    let (k, v) = parse_environment_line("  KEY = a=b ").unwrap();
    assert_eq!(k, "KEY");
    assert_eq!(v, "a=b");
}

#[test]
fn lone_quote_is_kept() {
    assert_eq!(strip_quotes("\""), "\"");
    assert_eq!(strip_quotes("'x\""), "'x\"");
    assert_eq!(strip_quotes("  'x'  "), "x");
}

#[test]
fn environment_files_skip_comments_and_blanks() {
    let pairs = parse_environment_file("# comment\n\nA=1\n; other\nB=\"two words\"\nnoequals\n");
    assert_eq!(pairs, vec![("A".to_string(), "1".to_string()), ("B".to_string(), "two words".to_string())]);
}

#[test]
fn later_settings_win_when_merging() {
    let base = vec![("A".to_string(), "1".to_string()), ("B".to_string(), "2".to_string())];
    let extra = vec![("B".to_string(), "3".to_string()), ("C".to_string(), "4".to_string())];
    let mut merged = merge_environment(&base, &extra);
    merged.sort();
    assert_eq!(
        merged,
        vec![
            ("A".to_string(), "1".to_string()),
            ("B".to_string(), "3".to_string()),
            ("C".to_string(), "4".to_string())
        ]
    );
}
