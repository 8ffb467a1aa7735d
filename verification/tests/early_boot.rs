use forge_core::early_boot::{desktop_user, passwd_uid, selinux_enforcing, start_step, trim_matches_char, StartStep};

#[test]
fn desktop_user_from_file() {
    assert_eq!(desktop_user(Some("# desktop\nuser = \"alice\"\n")), "alice");
    assert_eq!(desktop_user(Some("username='bob'\n")), "bob");
    assert_eq!(desktop_user(Some("user = \"\"\nuser=carol\n")), "carol");
    assert_eq!(desktop_user(Some("session = gnome\n")), "Sisyphus");
    assert_eq!(desktop_user(None), "Sisyphus");
}

#[test]
fn trim_matches_strips_both_ends() {
    assert_eq!(trim_matches_char("\"\"x\"", '"'), "x");
    assert_eq!(trim_matches_char("\"\"", '"'), "");
    assert_eq!(trim_matches_char("a\"b", '"'), "a\"b");
}

#[test]
fn passwd_uid_field() {
    assert_eq!(passwd_uid("gdm:x:42:42:GNOME:/var/lib/gdm:/sbin/nologin\n").as_deref(), Some("42"));
    assert_eq!(passwd_uid("gdm:x").as_deref(), None);
}

#[test]
fn selinux_enforcing_sources() {
    assert!(selinux_enforcing(Some("1\n"), None));
    assert!(!selinux_enforcing(Some("0\n"), Some("SELINUX=enforcing\n")));
    assert!(selinux_enforcing(None, Some("# cfg\n  SELINUX=enforcing  \nSELINUXTYPE=targeted\n")));
    assert!(!selinux_enforcing(None, Some("SELINUX=permissive\n")));
    assert!(!selinux_enforcing(None, None));
}

#[test]
fn start_steps_by_name() {
    assert_eq!(start_step("forge-early"), StartStep::EarlyBoot);
    assert_eq!(start_step("user-sessions"), StartStep::AllowLogins);
    assert_eq!(start_step("dbus"), StartStep::SystemBus);
    assert_eq!(start_step("sshd"), StartStep::Launch);
}
