use forge_core::cgroup::ServiceLimits;
use forge_core::sandbox::SandboxConfig;
use forge_core::service::dropin::{list_dropin_dirs, merge_systemd_unit, merge_toml_dropin, TomlDropin};
use forge_core::service::forge::{ForgeState, RestartPolicy};
use forge_core::service::manifest::{ServiceManifest, ServiceType};
use forge_core::service::native::{
    load_native_units, native_unit_kind, register_native_service, NativeInput, NativeService, NativeTarget, NativeUnit,
};
use forge_core::service::systemd::SystemdUnit;
use forge_core::service::unit::{
    load_systemd_unit, load_toml_unit, service_from_spec, EnvironmentSpec, RawUnitFile, ServiceSpec, TargetSpec,
};

#[test]
fn systemd_services_register_with_their_settings() {
    let unit = SystemdUnit::parse(
        "[Unit]\nAfter=network.target\nRequires=dbus.service\n[Service]\nExecStart=/usr/sbin/sshd -D\nRestart=on-failure\nType=notify\nPrivateTmp=yes\n",
    );
    let mut state = ForgeState::default();
    load_systemd_unit(&mut state, &unit, "sshd".into(), "service", "/etc/systemd/system/sshd.service", vec![], None).unwrap();
    let k = state.find_unit("sshd").unwrap();
    assert_eq!(state.unit_name(k), "sshd");
}

#[test]
fn systemd_services_need_exec_start() {
    let unit = SystemdUnit::parse("[Service]\nType=simple\n");
    let mut state = ForgeState::default();
    let err = load_systemd_unit(&mut state, &unit, "x".into(), "service", "/x.service", vec![], None).unwrap_err();
    assert_eq!(err, "/x.service missing ExecStart");
    assert!(state.find_unit("x").is_none());
    let unit = SystemdUnit::parse("[Service]\nExecStart='broken\n");
    assert_eq!(load_systemd_unit(&mut state, &unit, "x".into(), "service", "/x.service", vec![], None).unwrap_err(), "missing closing quote");
}

#[test]
fn other_systemd_units_register_too() {
    let mut state = ForgeState::default();
    let unit = SystemdUnit::parse("[Unit]\nRequires=a.service\nWants=b.service\n");
    load_systemd_unit(&mut state, &unit, "multi-user".into(), "target", "/m.target", vec![], None).unwrap();
    let unit = SystemdUnit::parse("[Socket]\nListenStream=/run/x.sock\n");
    load_systemd_unit(&mut state, &unit, "x".into(), "socket", "/x.socket", vec![], None).unwrap();
    let unit = SystemdUnit::parse("[Mount]\nWhat=/dev/sda1\n");
    assert_eq!(load_systemd_unit(&mut state, &unit, "m".into(), "mount", "/m.mount", vec![], None).unwrap_err(), "/m.mount missing Where");
    let unit = SystemdUnit::parse("[Path]\nX=1\n");
    load_systemd_unit(&mut state, &unit, "p".into(), "path", "/p.path", vec![], None).unwrap();
    assert!(state.find_unit("p").is_none());
    assert!(state.find_unit("multi-user").is_some());
    assert!(state.find_unit("x").is_some());
}

fn spec(name: &str) -> ServiceSpec {
    ServiceSpec {
        name: name.into(),
        exec_path: "/bin/app".into(),
        args: vec![],
        after: vec![],
        requires: vec![],
        wants: vec![],
        sockets: vec![],
        restart: RestartPolicy::No,
        cgroup: ServiceLimits::default(),
        service_type: ServiceType::Simple,
        environment: EnvironmentSpec { environment_file: None, vars: vec![("A".into(), "1".into())] },
        exec_start_pre: None,
        bus_name: None,
        sandbox: SandboxConfig::none(),
        user: None,
        group: None,
        working_directory: None,
        provides: vec![],
        stop_cmd: Some("/bin/app --stop".into()),
        stop_signal: None,
        reload_cmd: None,
        reload_signal: None,
        watchdog: Some("10s".into()),
    }
}

#[test]
fn toml_services_become_manifests() {
    let m = service_from_spec(spec("app"), vec![("B".into(), "2".into())]).unwrap();
    assert_eq!(m.name, "app");
    assert_eq!(m.watchdog_usec, Some(10_000_000));
    assert_eq!(m.stop_cmd, Some(("/bin/app".to_string(), vec!["--stop".to_string()])));
    assert_eq!(m.environment.len(), 2);
}

#[test]
fn toml_unit_files_hold_one_table() {
    let mut state = ForgeState::default();
    let empty = RawUnitFile { service: None, socket: None, target: None, device: None, timer: None, mount: None };
    assert_eq!(
        load_toml_unit(&mut state, empty, "/u.toml", vec![], &vec![]).unwrap_err(),
        "Unit /u.toml must contain exactly one of [service], [socket], [target], [device], [timer], or [mount]"
    );
    let t = RawUnitFile {
        service: None,
        socket: None,
        target: Some(TargetSpec { name: "graphical".into(), requires: vec![], wants: vec![] }),
        device: None,
        timer: None,
        mount: None,
    };
    load_toml_unit(&mut state, t, "/g.toml", vec![], &vec![]).unwrap();
    assert!(state.find_unit("graphical").is_some());
    let s = RawUnitFile { service: Some(spec("app")), socket: None, target: None, device: None, timer: None, mount: None };
    load_toml_unit(&mut state, s, "/a.toml", vec![], &vec![]).unwrap();
    assert!(state.find_unit("app").is_some());
}

#[test]
fn drop_ins_overlay_and_extend() {
    let mut base = SystemdUnit::parse("[Service]\nExecStart=/bin/a\nUser=root\n");
    let overlay = SystemdUnit::parse("[Service]\nUser=nobody\n[Unit]\nAfter=x.service\n");
    merge_systemd_unit(&mut base, &overlay);
    assert_eq!(base.get("Service", "User"), Some("nobody".into()));
    assert_eq!(base.get("Service", "ExecStart"), Some("/bin/a".into()));
    assert_eq!(base.get("Unit", "After"), Some("x.service".into()));
    let dirs = list_dropin_dirs("/etc/forge/units", "/etc/systemd/system", "sshd");
    assert_eq!(
        dirs,
        vec![
            "/etc/forge/units/sshd.forge.toml.d".to_string(),
            "/etc/forge/units/sshd.d".to_string(),
            "/etc/systemd/system/sshd.service.d".to_string(),
            "/etc/systemd/system/sshd.d".to_string(),
        ]
    );
    let mut m = ServiceManifest::new("a".into(), "/bin/a".into());
    merge_toml_dropin(
        &mut m,
        &TomlDropin { after: vec![Some("net".into()), None], environment: vec![("K".into(), Some("v".into())), ("N".into(), None)] },
    );
    assert_eq!(m.after, vec!["net".to_string()]);
    assert_eq!(m.environment, vec![("K".to_string(), "v".to_string())]);
}

#[test]
fn native_units_register_and_report_errors() {
    assert_eq!(native_unit_kind("dbus.socket"), "socket");
    assert_eq!(native_unit_kind("multi-user.target"), "target");
    assert_eq!(native_unit_kind("sshd"), "service");
    let mut state = ForgeState::default();
    let mut svc = NativeService::default();
    svc.name = "sshd".into();
    svc.command = "/usr/sbin/sshd".into();
    svc.need = vec!["net".into()];
    register_native_service(&mut state, svc, None).unwrap();
    assert!(state.find_unit("sshd").is_some());
    let inputs = vec![
        NativeInput {
            path: "/etc/forge/units/a.target.toml".into(),
            unit: Ok(NativeUnit::Target(NativeTarget { name: "a".into(), requires: vec![], wants: vec![] })),
            env_file: None,
        },
        NativeInput { path: "/etc/forge/units/b.toml".into(), unit: Err("bad toml".into()), env_file: None },
    ];
    let mut state = ForgeState::default();
    assert!(load_native_units(&mut state, inputs, false).is_err());
    let inputs = vec![NativeInput { path: "/b.toml".into(), unit: Err("bad toml".into()), env_file: None }];
    let mut state = ForgeState::default();
    assert_eq!(load_native_units(&mut state, inputs, true).unwrap_err(), "1 native unit(s) skipped due to errors");
}
