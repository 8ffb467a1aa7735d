use forge_core::signals::{parse_i32_str, parse_signal, SIGHUP_NUMBER};

#[test]
fn signal_names_in_any_spelling() {
    assert_eq!(parse_signal("SIGTERM"), 15);
    assert_eq!(parse_signal("sigterm"), 15);
    assert_eq!(parse_signal("TERM"), 15);
    assert_eq!(parse_signal("  kill "), 9);
    assert_eq!(parse_signal("SIGQUIT"), 3);
}

#[test]
fn signal_numbers_are_accepted() {
    assert_eq!(parse_signal("9"), 9);
    assert_eq!(parse_signal("+15"), 15);
}

#[test]
fn unknown_signals_fall_back_to_hangup() {
    assert_eq!(SIGHUP_NUMBER, 1);
    assert_eq!(parse_signal("bogus"), 1);
    assert_eq!(parse_signal("-9"), 1);
    assert_eq!(parse_signal("0"), 1);
    assert_eq!(parse_signal(""), 1);
}

#[test]
fn i32_parsing_follows_str_parse() {
    assert_eq!(parse_i32_str("-2147483648"), Some(i32::MIN));
    assert_eq!(parse_i32_str("2147483647"), Some(i32::MAX));
    assert_eq!(parse_i32_str("2147483648"), None);
    assert_eq!(parse_i32_str("-+5"), None);
    assert_eq!(parse_i32_str("-"), None);
    assert_eq!(parse_i32_str("+7"), Some(7));
    assert_eq!(parse_i32_str("-12"), Some(-12));
}
