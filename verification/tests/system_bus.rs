use forge_core::system_bus::{
    dbus_unit_name, leader_from_properties, locale_file_contents, read_greeter_environment, read_locale_settings,
    settings_in, start_hook, timezone_from_link, user_manager_uid, Property, StartHook,
};
use forge_core::text::second_piece_str;

#[test]
fn dbus_unit_name_drops_service_suffix() {
    assert_eq!(dbus_unit_name("sshd.service"), "sshd");
    assert_eq!(dbus_unit_name("a.service.service"), "a");
    assert_eq!(dbus_unit_name("dbus.socket"), "dbus.socket");
}

#[test]
fn start_hooks_by_unit_name() {
    assert_eq!(start_hook("user@1000.service"), StartHook::UserManager);
    assert_eq!(start_hook("user-sessions.service"), StartHook::AllowLogins);
    assert_eq!(start_hook("systemd-user-sessions.service"), StartHook::AllowLogins);
    assert_eq!(start_hook("sshd.service"), StartHook::Nothing);
}

#[test]
fn user_manager_uid_parses_unit() {
    assert_eq!(user_manager_uid("user@1000.service"), Some(1000));
    assert_eq!(user_manager_uid("user@0.service"), Some(0));
    assert_eq!(user_manager_uid("user@abc.service"), None);
    assert_eq!(user_manager_uid("user@1000.scope"), None);
    assert_eq!(user_manager_uid("user1000.service"), None);
    assert_eq!(user_manager_uid("user@99999999999.service"), None);
    assert_eq!(user_manager_uid("user@12.service@x"), Some(12));
}

#[test]
fn leader_prefers_leader_property() {
    let props = vec![
        Property { key: "PIDs".to_string(), number: None, items: Some(vec![None, Some(42), Some(43)]) },
        Property { key: "Leader".to_string(), number: Some(7), items: None },
    ];
    assert_eq!(leader_from_properties(&props), Some(7));
    let only_pids = vec![Property { key: "PIDs".to_string(), number: None, items: Some(vec![Some(42), Some(43)]) }];
    assert_eq!(leader_from_properties(&only_pids), Some(42));
    assert_eq!(leader_from_properties(&Vec::new()), None);
}

#[test]
fn settings_keep_assignments_only() {
    let text = "  A=1  \n# B=2\n\nplain\nC=3";
    assert_eq!(settings_in(text), vec!["A=1".to_string(), "C=3".to_string()]);
}

#[test]
fn greeter_environment_defaults_when_empty() {
    assert_eq!(read_greeter_environment(Some("X=1\n")), vec!["X=1".to_string()]);
    let defaults = read_greeter_environment(None);
    assert_eq!(defaults.len(), 3);
    assert_eq!(defaults[0], "WLR_NO_HARDWARE_CURSORS=1");
    assert_eq!(read_greeter_environment(Some("# nothing\n")), defaults);
}

#[test]
fn locale_settings_default_to_en_us() {
    assert_eq!(read_locale_settings(Some("LANG=de_DE.UTF-8\n")), vec!["LANG=de_DE.UTF-8".to_string()]);
    assert_eq!(read_locale_settings(None), vec!["LANG=en_US.UTF-8".to_string()]);
    assert_eq!(read_locale_settings(Some("")), vec!["LANG=en_US.UTF-8".to_string()]);
}

#[test]
fn locale_file_keeps_assignments() {
    let entries = vec!["LANG=C".to_string(), "junk".to_string(), "LC_TIME=C".to_string()];
    assert_eq!(locale_file_contents(&entries), "LANG=C\nLC_TIME=C\n");
    assert_eq!(locale_file_contents(&vec!["junk".to_string()]), "");
}

#[test]
fn timezone_from_localtime_link() {
    assert_eq!(timezone_from_link(Some("/usr/share/zoneinfo/Europe/Berlin")), "Europe/Berlin");
    assert_eq!(timezone_from_link(Some("../usr/share/zoneinfo/UTC")), "UTC");
    assert_eq!(timezone_from_link(Some("/etc/other")), "UTC");
    assert_eq!(timezone_from_link(None), "UTC");
}

#[test]
fn second_piece_splits_at_pattern() {
    assert_eq!(second_piece_str("a::b::c", "::"), Some("b".to_string()));
    assert_eq!(second_piece_str("a::b", "::"), Some("b".to_string()));
    assert_eq!(second_piece_str("ab", "::"), None);
}
