use forge_core::cgroup::{controller_line, memory_max_too_large, normalize_memory_max, sanitize_name};

#[test]
fn memory_suffixes_convert_to_bytes() {
    assert_eq!(normalize_memory_max("512M"), (512 * 1024 * 1024).to_string());
    assert_eq!(normalize_memory_max("512Mb"), (512 * 1024 * 1024).to_string());
    assert_eq!(normalize_memory_max("2G"), (2u64 * 1024 * 1024 * 1024).to_string());
    assert_eq!(normalize_memory_max("2gb"), (2u64 * 1024 * 1024 * 1024).to_string());
    assert_eq!(normalize_memory_max("max"), "max");
}

#[test]
fn memory_limits_keep_plain_numbers_and_kilobytes() {
    assert_eq!(normalize_memory_max("4096"), "4096");
    assert_eq!(normalize_memory_max("  8k "), "8192");
    assert_eq!(normalize_memory_max("1T"), "1T");
    assert_eq!(normalize_memory_max("abcG"), "0");
    assert_eq!(normalize_memory_max("infinity"), "max");
}

#[test]
fn memory_limits_report_overflow() {
    assert!(memory_max_too_large("99999999999G"));
    assert!(!memory_max_too_large("99999999999999999999G"));
    assert!(!memory_max_too_large("512M"));
}

#[test]
fn cgroup_names_are_sanitized() {
    assert_eq!(sanitize_name("getty@tty1"), "getty@tty1");
    assert_eq!(sanitize_name("a/b"), "a_b");
}

#[test]
fn controller_line_enables_each_controller() {
    let line = controller_line(&vec!["cpu".to_string(), "memory".to_string()]);
    assert_eq!(line, "+cpu +memory");
}
