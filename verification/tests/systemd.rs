use forge_core::service::forge::RestartPolicy;
use forge_core::service::manifest::ServiceType;
use forge_core::service::systemd::{
    map_restart, map_service_type, normalize_unit_name, parse_exec_start, unit_name_from_path, SystemdUnit,
};
use forge_core::service::unit::parse_watchdog;

#[test]
fn parses_unit_sections() {
    let unit = SystemdUnit::parse(
        "[Unit]\nAfter=network.target\n\n[Service]\nExecStart=/bin/true\nEnvironment=FOO=bar\n",
    );
    assert_eq!(unit.get("Unit", "After"), Some("network.target".into()));
    assert_eq!(unit.get("Service", "ExecStart"), Some("/bin/true".into()));
    assert_eq!(unit.get("Service", "Environment"), Some("FOO=bar".into()));
}

#[test]
fn strips_systemd_suffixes() {
    assert_eq!(normalize_unit_name("foo.service"), "foo");
    assert_eq!(normalize_unit_name("multi-user.target"), "multi-user");
}

#[test]
fn repeated_keys_keep_every_value_and_comments_are_skipped() {
    let unit = SystemdUnit::parse("# c\n[Unit]\nAfter=a.service b.socket\n; x\nAfter=c.target\n");
    assert_eq!(unit.values("Unit", "After"), vec!["a.service b.socket".to_string(), "c.target".to_string()]);
    assert_eq!(unit.list("Unit", "After"), vec!["a".to_string(), "b".to_string(), "c".to_string()]);
    assert_eq!(unit.get("Unit", "Before"), None);
    assert!(unit.values("Install", "WantedBy").is_empty());
    assert!(unit.section("Unit").is_some());
    assert!(unit.section("Missing").is_none());
}

#[test]
fn keys_before_any_section_go_to_the_unnamed_one() {
    let unit = SystemdUnit::parse("Key = value \n[Empty]\n");
    assert_eq!(unit.get("", "Key"), Some("value".into()));
    assert!(unit.section("Empty").is_some());
}

#[test]
fn other_suffixes_are_stripped_from_the_untrimmed_name() {
    assert_eq!(normalize_unit_name("dev-sda.device"), "dev-sda");
    assert_eq!(normalize_unit_name(" x.service "), "x");
    assert_eq!(normalize_unit_name("plain"), "plain");
}

#[test]
fn unit_names_come_from_file_stems() {
    assert_eq!(unit_name_from_path("/etc/systemd/system/sshd.service"), "sshd");
    assert_eq!(unit_name_from_path("/"), "unknown");
}

#[test]
fn exec_start_lines_split_like_a_shell() {
    let (p, a) = parse_exec_start("/bin/echo 'a b' c").unwrap();
    assert_eq!(p, "/bin/echo");
    assert_eq!(a, vec!["a b".to_string(), "c".to_string()]);
    assert_eq!(parse_exec_start("'open").unwrap_err(), "missing closing quote");
    assert_eq!(parse_exec_start("   ").unwrap_err(), "ExecStart is empty");
}

#[test]
fn restart_and_type_values_map_ignoring_case() {
    assert_eq!(map_restart("Always"), RestartPolicy::Always);
    assert_eq!(map_restart("on-abort"), RestartPolicy::OnFailure);
    assert_eq!(map_restart("never"), RestartPolicy::No);
    assert_eq!(map_service_type("NOTIFY"), ServiceType::Notify);
    assert_eq!(map_service_type("notify-reload"), ServiceType::NotifyReload);
    assert_eq!(map_service_type("exec"), ServiceType::Simple);
}

#[test]
fn watchdog_values_scale_to_microseconds() {
    assert_eq!(parse_watchdog(Some("250")), Some(250));
    assert_eq!(parse_watchdog(Some("30s")), Some(30_000_000));
    assert_eq!(parse_watchdog(Some("2sec")), Some(2_000_000));
    assert_eq!(parse_watchdog(Some("1min")), Some(60_000_000));
    assert_eq!(parse_watchdog(Some("3m")), Some(180_000_000));
    assert_eq!(parse_watchdog(Some("fast")), None);
    assert_eq!(parse_watchdog(None), None);
}
