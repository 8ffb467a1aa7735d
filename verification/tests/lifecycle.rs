use forge_core::cgroup::ServiceLimits;
use forge_core::rc_update::RcDatabase;
use forge_core::service::forge::{
    daemon_basename, forking_daemon_missing, launch_environment, parse_pgrep_pid, ForgeError, ForgeState, HostCheck,
    KillAction, Phase, RestartPolicy, UnitState,
};
use forge_core::service::manifest::{MountManifest, ServiceManifest, ServiceType};

fn svc(state: &mut ForgeState, name: &str, after: Vec<String>, needs: Vec<String>) -> usize {
    state
        .register_service(
            name.into(),
            "/bin/true".into(),
            vec![],
            after,
            needs,
            vec![],
            vec![],
            RestartPolicy::No,
            ServiceLimits::default(),
        )
        .unwrap()
}

fn booted() -> ForgeState {
    let mut state = ForgeState::default();
    state.register_target("multi-user".into(), vec![], vec!["base".into(), "child".into()]).unwrap();
    svc(&mut state, "base", vec![], vec![]);
    svc(&mut state, "child", vec!["base".into()], vec![]);
    state.resolve_target_closure(&RcDatabase::absent()).unwrap();
    state.resolve_dependencies().unwrap();
    state
}

#[test]
fn names_resolve_to_services_or_errors() {
    let mut state = ForgeState::default();
    let mut m = ServiceManifest::new("networkd".into(), "/bin/netd".into());
    m.provides = vec!["net".into()];
    let k = state.register_service_manifest(m).unwrap();
    state.register_target("multi-user".into(), vec![], vec![]).unwrap();
    assert_eq!(state.service_key("networkd").unwrap(), k);
    assert_eq!(state.service_key("net").unwrap(), k);
    assert!(matches!(state.service_key("nothing"), Err(ForgeError::NotFound(n)) if n == "nothing"));
    assert!(matches!(state.service_key("multi-user"), Err(ForgeError::NotService(n)) if n == "multi-user"));
    assert!(state.unit_key("multi-user").is_ok());
    assert!(matches!(state.target_key("networkd"), Err(ForgeError::InvalidOperation(m)) if m == "'networkd' is not a target unit"));
    assert!(state.target_key("multi-user").is_ok());
    assert!(matches!(state.target_key("net"), Err(ForgeError::NotFound(_))));
}

#[test]
fn reload_and_stop_use_commands_or_signals() {
    let mut state = ForgeState::default();
    let mut m = ServiceManifest::new("web".into(), "/bin/web".into());
    m.reload_signal = Some("SIGUSR2".into());
    m.stop_cmd = Some(("/bin/web-stop".into(), vec!["now".into()]));
    let k = state.register_service_manifest(m).unwrap();
    assert!(matches!(state.reload_action("web"), Err(ForgeError::NotRunning(n)) if n == "web"));
    assert!(matches!(state.begin_stop(k, 15), Err(ForgeError::NotRunning(_))));
    state.mark_started(k, 77);
    match state.reload_action("web").unwrap() {
        KillAction::SendSignal { pid, signal } => {
            assert_eq!(pid, 77);
            assert_eq!(signal, 12);
        }
        other => panic!("unexpected {other:?}"),
    }
    match state.begin_stop(k, 15).unwrap() {
        KillAction::RunCommand { program, args } => {
            assert_eq!(program, "/bin/web-stop");
            assert_eq!(args, vec!["now".to_string()]);
        }
        other => panic!("unexpected {other:?}"),
    }
    assert_eq!(state.unit_state(k), UnitState::Stopping);
    let plain = svc(&mut state, "plain", vec![], vec![]);
    state.mark_started(plain, 5);
    match state.begin_stop(plain, 15).unwrap() {
        KillAction::SendSignal { pid, signal } => assert_eq!((pid, signal), (5, 15)),
        other => panic!("unexpected {other:?}"),
    }
    match state.reload_action("plain").unwrap() {
        KillAction::SendSignal { signal, .. } => assert_eq!(signal, 1),
        other => panic!("unexpected {other:?}"),
    }
}

#[test]
fn starting_hands_out_the_plan() {
    let mut state = ForgeState::default();
    let mut m = ServiceManifest::new("db".into(), "/bin/db".into());
    m.args = vec!["--fast".into()];
    m.service_type = ServiceType::Oneshot;
    m.timeout_secs = Some(5);
    m.environment = vec![("A".into(), "1".into())];
    let k = state.register_service_manifest(m).unwrap();
    let plan = state.begin_start(k).unwrap();
    assert_eq!(plan.name, "db");
    assert_eq!(plan.exec_path, "/bin/db");
    assert_eq!(plan.args, vec!["--fast".to_string()]);
    assert_eq!(plan.service_type, ServiceType::Oneshot);
    assert_eq!(plan.timeout_secs, Some(5));
    assert_eq!(state.unit_state(k), UnitState::Starting);
    let t = state.register_target("multi-user".into(), vec![], vec![]).unwrap();
    assert!(matches!(state.begin_start(t), Err(ForgeError::NotService(n)) if n == "multi-user"));
    assert_eq!(ForgeState::service_timeout(ServiceType::Oneshot, None, 120), 120);
    assert_eq!(ForgeState::service_timeout(ServiceType::Simple, None, 120), 90);
    assert_eq!(ForgeState::service_timeout(ServiceType::Simple, Some(3), 120), 3);
    assert_eq!(ForgeState::oneshot_timeout(Some("30")), 30);
    assert_eq!(ForgeState::oneshot_timeout(Some("x")), 120);
    assert_eq!(ForgeState::stop_timeout(None), 90);
}

#[test]
fn oneshot_and_forking_outcomes() {
    let mut state = ForgeState::default();
    let k = svc(&mut state, "job", vec![], vec![]);
    state.mark_started(k, 10);
    assert!(state.finish_oneshot(k, 0).is_ok());
    assert_eq!(state.unit_state(k), UnitState::Dead);
    state.mark_started(k, 11);
    match state.finish_oneshot(k, 2 << 8) {
        Err(ForgeError::SpawnFailed { name, error }) => {
            assert_eq!(name, "job");
            assert_eq!(error, "oneshot failed (exit code 2)");
        }
        other => panic!("unexpected {other:?}"),
    }
    assert_eq!(state.unit_state(k), UnitState::Failed);
    assert!(state.check_forking_parent(k, 0).is_ok());
    match state.check_forking_parent(k, 9) {
        Err(ForgeError::SpawnFailed { error, .. }) => assert_eq!(error, "forking parent failed (signal 9)"),
        other => panic!("unexpected {other:?}"),
    }
    assert_eq!(parse_pgrep_pid(" 4242\n"), Some(4242));
    assert_eq!(parse_pgrep_pid(""), None);
    assert_eq!(daemon_basename("/usr/sbin/sshd"), "sshd");
    match forking_daemon_missing("ssh", "sshd") {
        ForgeError::SpawnFailed { name, error } => {
            assert_eq!(name, "ssh");
            assert_eq!(error, "forking service 'ssh' did not leave a running 'sshd' process");
        }
        other => panic!("unexpected {other:?}"),
    }
}

#[test]
fn sockets_and_mounts_activate() {
    let mut state = ForgeState::default();
    let s = state.register_socket("dbus.socket".into(), vec!["/run/dbus/system_bus_socket".into()], None, vec![]).unwrap();
    let svc_key = svc(&mut state, "dbus", vec![], vec![]);
    assert_eq!(state.begin_socket_activation(s), Some(vec!["/run/dbus/system_bus_socket".to_string()]));
    assert_eq!(state.unit_state(s), UnitState::Starting);
    state.finish_socket_activation(s, vec!["/run/dbus/system_bus_socket".into()]);
    assert_eq!(state.unit_state(s), UnitState::Listening);
    assert_eq!(state.begin_socket_activation(svc_key), None);
    assert_eq!(state.socket_keys(&vec!["dbus.socket".into()]).unwrap(), vec![s]);
    assert!(matches!(state.socket_keys(&vec!["dbus".into()]), Err(ForgeError::InvalidOperation(m)) if m == "'dbus' is not a socket unit"));
    match state.socket_keys(&vec!["gone.socket".into()]) {
        Err(ForgeError::MissingUnit { unit, dependency }) => {
            assert_eq!(unit, "service");
            assert_eq!(dependency, "gone.socket");
        }
        other => panic!("unexpected {other:?}"),
    }
    let m = state
        .register_mount(MountManifest {
            name: "data.mount".into(),
            what: "/dev/sdb1".into(),
            where_: "/data".into(),
            fstype: "ext4".into(),
            options: "defaults".into(),
            after: vec![],
        })
        .unwrap();
    let spec = state.begin_mount(m).unwrap();
    assert_eq!(spec, ("/dev/sdb1".to_string(), "/data".to_string(), "ext4".to_string(), "defaults".to_string()));
    assert!(state.finish_mount(m, Ok(()), true).is_ok());
    assert_eq!(state.unit_state(m), UnitState::Running);
    assert_eq!(state.mounted_points(), vec!["/data".to_string()]);
    assert!(state.begin_mount(m).is_none());
    let m2 = state
        .register_mount(MountManifest {
            name: "x.mount".into(),
            what: "a".into(),
            where_: "/x".into(),
            fstype: "ext4".into(),
            options: "".into(),
            after: vec![],
        })
        .unwrap();
    match state.finish_mount(m2, Err("busy".into()), true) {
        Err(ForgeError::InvalidOperation(msg)) => assert_eq!(msg, "mount 'x.mount': busy"),
        other => panic!("unexpected {other:?}"),
    }
    assert!(state.finish_mount(m2, Err("busy".into()), false).is_ok());
    assert_eq!(state.unit_state(m2), UnitState::Dead);
}

#[test]
fn boot_plan_phases_and_profile() {
    let mut state = booted();
    let waves = state.boot_plan().unwrap();
    assert_eq!(waves.len(), 2);
    let all = state.bootable_units();
    assert_eq!(all.len(), 2);
    assert_eq!(state.phase_units(&all, Phase::Services), all);
    assert!(state.phase_units(&all, Phase::Sockets).is_empty());
    state.record_wave(1, &waves[0], 12);
    let p = state.boot_profile();
    assert_eq!(p.waves.len(), 1);
    assert_eq!(p.waves[0].wave, 1);
    assert_eq!(p.waves[0].services, vec!["base".to_string()]);
    assert_eq!(p.waves[0].duration_ms, 12);
    state.set_total_boot_ms(99);
    assert_eq!(state.boot_profile().total_boot_ms, 99);
    let chain = state.fallback_chain(&vec!["rescue".into(), "multi-user".into(), "rescue".into()]);
    assert_eq!(chain, vec!["multi-user".to_string(), "rescue".to_string()]);
}

#[test]
fn lenient_boots_ignore_cycles() {
    let mut state = ForgeState::default();
    state.register_target("multi-user".into(), vec![], vec!["a".into(), "b".into()]).unwrap();
    svc(&mut state, "a", vec!["b".into()], vec![]);
    svc(&mut state, "b", vec!["a".into()], vec![]);
    state.resolve_target_closure(&RcDatabase::absent()).unwrap();
    state.resolve_dependencies().unwrap();
    assert!(matches!(state.boot_plan(), Err(ForgeError::CycleDetected)));
    state.set_boot_lenient(true);
    let plan = state.boot_plan().unwrap();
    assert_eq!(plan.len(), 1);
    assert_eq!(plan[0].len(), 2);
}

#[test]
fn start_failures_stop_strict_boots_at_required_units() {
    let mut state = ForgeState::default();
    state.register_target("multi-user".into(), vec!["base".into()], vec!["extra".into()]).unwrap();
    let base = svc(&mut state, "base", vec![], vec![]);
    let extra = svc(&mut state, "extra", vec![], vec![]);
    let stray = svc(&mut state, "stray", vec![], vec![]);
    state.resolve_target_closure(&RcDatabase::absent()).unwrap();
    assert!(!state.note_start_failure(base));
    state.set_strict_boot(true);
    assert!(state.note_start_failure(base));
    assert!(!state.note_start_failure(extra));
    assert!(!state.note_start_failure(stray));
    assert_eq!(state.unit_state(stray), UnitState::Failed);
}

#[test]
fn shutdown_runs_once_in_reverse_order() {
    let mut state = booted();
    let base = state.find_unit("base").unwrap();
    let child = state.find_unit("child").unwrap();
    state.mark_started(base, 100);
    state.mark_started(child, 101);
    assert_eq!(state.running_services(), vec![(base, 100), (child, 101)]);
    let order = state.shutdown_order().unwrap();
    assert_eq!(order, vec![child, base]);
    assert!(state.is_shutting_down());
    assert!(state.shutdown_order().is_none());
}

#[test]
fn switching_targets() {
    let mut state = booted();
    state.set_active_target("rescue");
    assert_eq!(state.active_target(), "rescue");
    assert_eq!(state.boot_profile().active_target, "rescue");
}

#[test]
fn adhoc_services_are_active() {
    let mut state = ForgeState::default();
    let k = state.register_adhoc("shell", "/bin/sh", vec!["-c".into(), "true".into()]);
    assert!(state.is_active(k));
    assert_eq!(state.unit_name(k), "shell");
}

#[test]
fn host_services_and_sandbox_skips() {
    assert_eq!(ForgeState::sandbox_skip_reason("udev-settle"), Some("will not settle udev on a live system"));
    assert_eq!(ForgeState::sandbox_skip_reason("sshd"), None);
    match ForgeState::host_check("logind") {
        Some((HostCheck::ProcessRunning(names), detail)) => {
            assert_eq!(names, vec!["systemd-logind".to_string(), "elogind".to_string()]);
            assert!(detail.starts_with("using host logind"));
        }
        other => panic!("unexpected {other:?}"),
    }
    match ForgeState::host_check("dbus") {
        Some((HostCheck::SocketExists(p), _)) => assert_eq!(p, "/run/dbus/system_bus_socket"),
        other => panic!("unexpected {other:?}"),
    }
    assert!(ForgeState::host_check("sshd").is_none());
}

#[test]
fn launch_environment_adds_notify_and_sockets() {
    let env = vec![("A".to_string(), "1".to_string()), ("LISTEN_FDS".to_string(), "9".to_string())];
    let mut r = launch_environment(&env, Some("/run/forge/notify/x"), &vec!["/a".into(), "/b".into()]);
    r.sort();
    assert_eq!(
        r,
        vec![
            ("A".to_string(), "1".to_string()),
            ("FORGE_SOCKET_PATHS".to_string(), "/a:/b".to_string()),
            ("LISTEN_FDS".to_string(), "2".to_string()),
            ("NOTIFY_SOCKET".to_string(), "/run/forge/notify/x".to_string()),
        ]
    );
    let r = launch_environment(&env, None, &vec![]);
    assert_eq!(r.len(), 2);
}
