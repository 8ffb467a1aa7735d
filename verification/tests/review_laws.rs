use forge_core::dbus_wait::{first_present, resolve_tool};
use forge_core::jobs::{JobQueue, JobResult};
use forge_core::rc_update::{runlevel_ancestors, unit_eligible_for_runlevel, RcDatabase};
use forge_core::service::forge::ForgeState;
use forge_core::service::manifest::ServiceType as ManifestServiceType;
use forge_core::service::native::{
    load_native_units, map_service_type, NativeInput, NativeService, NativeTarget, NativeUnit, ServiceType,
};
use forge_core::service::systemd::map_service_type as systemd_type;

#[test]
fn first_present_picks_the_first_file() {
    let c = vec!["/a", "/b", "/c"];
    assert_eq!(first_present(&c, &vec![false, true, true]), Some(1));
    assert_eq!(first_present(&c, &vec![true, false, true]), Some(0));
    assert_eq!(first_present(&c, &vec![false, false, false]), None);
    assert_eq!(resolve_tool(&vec!["/nonexistent/x", "/bin/sh"]), Some("/bin/sh".to_string()));
    assert_eq!(resolve_tool(&vec![]), None);
}

fn service(name: &str, before: &[&str]) -> NativeInput {
    let mut s = NativeService::default();
    s.name = name.into();
    s.command = format!("/bin/{name}");
    s.before = before.iter().map(|b| b.to_string()).collect();
    NativeInput { path: format!("/etc/forge/units/{name}.toml"), unit: Ok(NativeUnit::Service(s)), env_file: None }
}

fn target(name: &str, requires: &[&str]) -> NativeInput {
    let t = NativeTarget { name: name.into(), requires: requires.iter().map(|r| r.to_string()).collect(), wants: vec![] };
    NativeInput { path: format!("/etc/forge/units/{name}.target.toml"), unit: Ok(NativeUnit::Target(t)), env_file: None }
}

#[test]
fn native_before_edge_orders_boot() {
    let mut state = ForgeState::default();
    let inputs = vec![target("multi-user", &["A", "B"]), service("A", &["B"]), service("B", &[])];
    assert_eq!(load_native_units(&mut state, inputs, false), Ok(()));
    assert_eq!(state.len(), 3);
    state.resolve_target_closure(&RcDatabase::absent()).unwrap();
    state.resolve_dependencies().unwrap();
    let waves = state.boot_waves().unwrap();
    let a = state.find_unit("A").unwrap();
    let b = state.find_unit("B").unwrap();
    let wave_of = |k| waves.iter().position(|w| w.contains(&k)).unwrap();
    assert!(wave_of(a) < wave_of(b));
}

#[test]
fn native_before_edge_to_missing_unit() {
    let mut state = ForgeState::default();
    let inputs = vec![service("A", &["B"])];
    assert_eq!(load_native_units(&mut state, inputs, false), Err("before ordering A -> B: unit 'B' not found".to_string()));
    assert!(state.find_unit("A").is_some());
    let mut state = ForgeState::default();
    let inputs = vec![service("A", &["B"])];
    assert_eq!(load_native_units(&mut state, inputs, true), Err("1 native unit(s) skipped due to errors".to_string()));
}

#[test]
fn native_partial_failure_keeps_earlier_units() {
    let mut state = ForgeState::default();
    let bad = NativeInput { path: "/b.toml".into(), unit: Err("bad toml".into()), env_file: None };
    let inputs = vec![target("a", &[]), bad, target("c", &[])];
    assert_eq!(load_native_units(&mut state, inputs, false), Err("bad toml".to_string()));
    assert!(state.find_unit("a").is_some());
    assert!(state.find_unit("c").is_none());
    let mut state = ForgeState::default();
    let bad = NativeInput { path: "/b.toml".into(), unit: Err("bad toml".into()), env_file: None };
    let inputs = vec![target("a", &[]), bad, target("c", &[])];
    assert!(load_native_units(&mut state, inputs, true).is_err());
    assert!(state.find_unit("a").is_some() && state.find_unit("c").is_some());
}

#[test]
fn runlevel_chain_and_eligibility() {
    let g = runlevel_ancestors("graphical");
    assert_eq!(g.last().map(String::as_str), Some("sysinit"));
    assert!(!g.contains(&"single".to_string()));
    assert_eq!(runlevel_ancestors(&g[1]), g[1..].to_vec());
    assert_eq!(runlevel_ancestors("rescue"), vec!["single".to_string(), "sysinit".to_string()]);
    let only_boot = vec!["boot".to_string()];
    assert!(unit_eligible_for_runlevel(&only_boot, "boot"));
    assert!(unit_eligible_for_runlevel(&only_boot, "multi-user"));
    assert!(unit_eligible_for_runlevel(&only_boot, "graphical"));
    assert!(!unit_eligible_for_runlevel(&only_boot, "single"));
}

#[test]
fn job_ids_increase_and_history_keeps_newest() {
    let mut q = JobQueue::new();
    let ids: Vec<u32> = (0..5).map(|i| q.enqueue(&format!("u{i}"), "replace", 0).id).collect();
    assert!(ids.windows(2).all(|w| w[0] < w[1]));
    for id in &ids {
        q.finish(*id, JobResult::Done);
    }
    let recent = q.recent(3);
    assert_eq!(recent.len(), 3);
    assert_eq!(recent[0].id, ids[4]);
    assert_eq!(recent[2].id, ids[2]);
    let mut big = JobQueue::new();
    for i in 0..300u32 {
        let j = big.enqueue(&format!("u{i}"), "replace", 0);
        big.finish(j.id, JobResult::Done);
    }
    assert_eq!(big.recent(1000).len(), 256);
    assert_eq!(big.recent(1)[0].id, 300);
}

#[test]
fn service_type_mappings_agree() {
    for st in [
        ServiceType::Simple,
        ServiceType::Forking,
        ServiceType::Oneshot,
        ServiceType::Dbus,
        ServiceType::Notify,
        ServiceType::NotifyReload,
    ] {
        assert_eq!(map_service_type(st), systemd_type(st.label()));
    }
    assert_eq!(systemd_type("NOTIFY"), ManifestServiceType::Notify);
    assert_eq!(systemd_type("bogus"), ManifestServiceType::Simple);
}

#[test]
fn lenient_switch_keeps_target() {
    let mut s = ForgeState::default();
    assert!(s.resolve_target_closure(&RcDatabase::absent()).is_err());
    s.register_target("multi-user".into(), vec!["ghost".into()], vec![]).unwrap();
    assert!(s.resolve_target_closure(&RcDatabase::absent()).is_err());
    s.set_boot_lenient(true);
    assert!(s.resolve_target_closure(&RcDatabase::absent()).is_ok());
}

#[test]
fn only_hard_requirements_are_required() {
    let mut state = ForgeState::default();
    state.register_target("multi-user".into(), vec![], vec!["app".into()]).unwrap();
    let mut dep = NativeService::default();
    dep.name = "dep".into();
    dep.command = "/bin/dep".into();
    forge_core::service::native::register_native_service(&mut state, dep, None).unwrap();
    let mut app = NativeService::default();
    app.name = "app".into();
    app.command = "/bin/app".into();
    app.need = vec!["dep".into()];
    forge_core::service::native::register_native_service(&mut state, app, None).unwrap();
    state.resolve_target_closure(&RcDatabase::absent()).unwrap();
    let app_key = state.find_unit("app").unwrap();
    let dep_key = state.find_unit("dep").unwrap();
    let target_key = state.find_unit("multi-user").unwrap();
    assert!(state.is_active(app_key) && state.is_active(dep_key));
    assert!(state.is_required(dep_key));
    assert!(!state.is_required(app_key));
    assert!(!state.is_required(target_key));
    state.set_strict_boot(true);
    assert!(!state.note_start_failure(app_key));
    assert!(state.note_start_failure(dep_key));
}
