use forge_core::launch::{
    launcher_candidates, launcher_command_with, pick_bus_launcher, resolve_service_command, system_dbus_command_with,
    wrap_selinux_with, CommandLine, Launcher,
};

fn s(v: &[&str]) -> Vec<String> {
    v.iter().map(|x| x.to_string()).collect()
}

#[test]
fn known_wrappers_are_replaced() {
    assert_eq!(resolve_service_command("dbus", "/usr/libexec/forge/start-dbus.sh"), Some(Launcher::SystemBus));
    assert_eq!(resolve_service_command("udev", "/x/start-udevd"), Some(Launcher::Udevd));
    assert_eq!(resolve_service_command("logind", "/usr/sbin/elogind"), Some(Launcher::Logind));
    assert_eq!(resolve_service_command("getty-tty1", "/x/start-agetty tty1"), Some(Launcher::Agetty));
    assert_eq!(resolve_service_command("forge-early", "start-dbus"), None);
    assert_eq!(resolve_service_command("udev", "/sbin/udevd"), None);
}

#[test]
fn selinux_wrapping_prefers_the_helper() {
    let c = wrap_selinux_with(Some("polkitd"), "/bin/p", &s(&["-x"]), true, true);
    assert_eq!(c.program, "/usr/libexec/forge/exec-selinux-service.sh");
    assert_eq!(c.args, s(&["--user=polkitd", "/bin/p", "-x"]));
    let c = wrap_selinux_with(Some("u"), "/bin/p", &s(&["-x"]), false, true);
    assert_eq!(c.program, "/usr/bin/setpriv");
    assert_eq!(c.args, s(&["--reuid", "u", "--regid", "u", "--init-groups", "--", "/bin/p", "-x"]));
    let c = wrap_selinux_with(None, "/bin/p", &s(&["-x"]), false, true);
    assert_eq!(c.program, "/bin/p");
    assert_eq!(c.args, s(&["-x"]));
}

#[test]
fn polkit_runs_quietly_as_its_user() {
    let c = launcher_command_with(Launcher::Polkit, "/usr/lib/polkit-1/polkitd", &s(&["--x"]), false, true);
    assert_eq!(c.program, "/usr/bin/setpriv");
    assert_eq!(
        c.args,
        s(&["--reuid", "polkitd", "--regid", "polkitd", "--init-groups", "--", "/usr/lib/polkit-1/polkitd", "--no-debug", "--log-level=err", "--x"])
    );
    let c = launcher_command_with(Launcher::Agetty, "/sbin/agetty", &s(&["tty1"]), true, true);
    assert_eq!(c.program, "/sbin/agetty");
    assert_eq!(c.args, s(&["tty1"]));
    assert_eq!(launcher_candidates(Launcher::Udevd), vec!["/usr/lib/systemd/systemd-udevd", "/sbin/udevd"]);
}

#[test]
fn bus_launcher_choice() {
    let c = pick_bus_launcher(Some("2"), None, true, true, true).unwrap();
    assert_eq!(c.program, "/usr/bin/dbus-broker-launch");
    assert_eq!(c.args, s(&["--scope", "system", "--audit"]));
    let c = pick_bus_launcher(Some("2"), None, false, true, true).unwrap();
    assert_eq!(c.program, "/usr/bin/dbus-daemon");
    assert_eq!(
        c.args,
        s(&["--config-file=/usr/share/dbus-1/system.conf", "--nofork", "--nopidfile", "--systemd-activation", "--address=systemd:"])
    );
    let c = pick_bus_launcher(None, Some("TRUE"), true, true, false).unwrap();
    assert_eq!(c.program, "/usr/bin/dbus-broker-launch");
    let c = pick_bus_launcher(None, None, true, true, false).unwrap();
    assert_eq!(c.args, s(&["--config-file=/etc/dbus-1/system.conf", "--nofork", "--nopidfile"]));
    let c = pick_bus_launcher(Some("junk"), None, true, false, false).unwrap();
    assert_eq!(c.program, "/usr/bin/dbus-broker-launch");
    assert_eq!(pick_bus_launcher(None, None, false, false, false).unwrap_err(), "neither dbus-daemon nor dbus-broker-launch found");
}

#[test]
fn bus_runs_as_dbus() {
    let l = CommandLine { program: "/usr/bin/dbus-daemon".into(), args: s(&["--nofork"]) };
    let c = system_dbus_command_with(l, false, true);
    assert_eq!(c.program, "/usr/bin/setpriv");
    assert_eq!(c.args, s(&["--reuid=dbus", "--regid=dbus", "--init-groups", "--", "/usr/bin/dbus-daemon", "--nofork"]));
    let l = CommandLine { program: "/usr/bin/dbus-daemon".into(), args: s(&["--nofork"]) };
    let c = system_dbus_command_with(l, true, true);
    assert_eq!(c.program, "/usr/libexec/forge/exec-selinux-service.sh");
    assert_eq!(c.args, s(&["--user=dbus", "/usr/bin/dbus-daemon", "--nofork"]));
}
