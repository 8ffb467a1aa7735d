use forge_core::cgroup::ServiceLimits;
use forge_core::rc_update::RcDatabase;
use forge_core::service::forge::{ForgeError, ForgeState, RestartPolicy, UnitState};

fn service(state: &mut ForgeState, name: &str, after: Vec<String>, needs: Vec<String>, restart: RestartPolicy) -> usize {
    state
        .register_service(
            name.into(),
            "/bin/true".into(),
            vec![],
            after,
            needs,
            vec![],
            vec![],
            restart,
            ServiceLimits::default(),
        )
        .unwrap()
}

fn sample_target_state() -> ForgeState {
    let mut state = ForgeState::default();
    state
        .register_target("multi-user".into(), vec![], vec!["base".into(), "child".into()])
        .unwrap();
    service(&mut state, "base", vec![], vec![], RestartPolicy::No);
    service(&mut state, "child", vec!["base".into()], vec![], RestartPolicy::No);
    state
}

#[test]
fn boot_waves_respect_dependencies() {
    let mut state = sample_target_state();
    state.resolve_target_closure(&RcDatabase::absent()).unwrap();
    state.resolve_dependencies().unwrap();
    let waves = state.boot_waves().unwrap();
    assert_eq!(waves.len(), 2);
    assert_eq!(state.unit_name(waves[0][0]), "base");
    assert_eq!(state.unit_name(waves[1][0]), "child");
}

#[test]
fn detects_dependency_cycles() {
    let mut state = ForgeState::default();
    state
        .register_target("multi-user".into(), vec![], vec!["a".into(), "b".into()])
        .unwrap();
    service(&mut state, "a", vec!["b".into()], vec![], RestartPolicy::No);
    service(&mut state, "b", vec!["a".into()], vec![], RestartPolicy::No);
    state.resolve_target_closure(&RcDatabase::absent()).unwrap();
    state.resolve_dependencies().unwrap();
    assert!(matches!(state.boot_waves(), Err(ForgeError::CycleDetected)));
}

#[test]
fn need_implies_ordering_without_after() {
    let mut state = ForgeState::default();
    state.register_target("multi-user".into(), vec![], vec!["app".into()]).unwrap();
    service(&mut state, "dep", vec![], vec![], RestartPolicy::No);
    service(&mut state, "app", vec![], vec!["dep".into()], RestartPolicy::No);
    state.resolve_target_closure(&RcDatabase::absent()).unwrap();
    state.resolve_dependencies().unwrap();
    let waves = state.boot_waves().unwrap();
    assert_eq!(waves.len(), 2, "need without after should still order dep before app");
    assert_eq!(state.unit_name(waves[0][0]), "dep");
    assert_eq!(state.unit_name(waves[1][0]), "app");
    assert!(state.is_required(state.find_unit("dep").expect("dep unit")));
}

#[test]
fn duplicate_registration_keeps_the_first_unit() {
    let mut state = ForgeState::default();
    let first = service(&mut state, "web", vec![], vec![], RestartPolicy::No);
    let second = service(&mut state, "web", vec![], vec![], RestartPolicy::Always);
    assert_eq!(first, second);
    assert_eq!(state.len(), 1);
}

#[test]
fn missing_default_target_is_reported() {
    let mut state = ForgeState::default();
    service(&mut state, "lonely", vec![], vec![], RestartPolicy::No);
    match state.resolve_target_closure(&RcDatabase::absent()) {
        Err(ForgeError::MissingUnit { unit, dependency }) => {
            assert_eq!(unit, "default-target");
            assert_eq!(dependency, "multi-user");
        }
        _ => panic!("expected a missing default target"),
    }
}

#[test]
fn units_outside_the_closure_stay_inactive() {
    let mut state = sample_target_state();
    let stray = service(&mut state, "stray", vec![], vec![], RestartPolicy::No);
    state.resolve_target_closure(&RcDatabase::absent()).unwrap();
    assert!(!state.is_active(stray));
    assert!(state.is_active(state.find_unit("base").unwrap()));
    state.resolve_dependencies().unwrap();
    let waves = state.boot_waves().unwrap();
    let all: Vec<usize> = waves.iter().flatten().copied().collect();
    assert!(!all.contains(&stray));
}

#[test]
fn stop_order_reverses_the_boot_order() {
    let mut state = sample_target_state();
    state.resolve_target_closure(&RcDatabase::absent()).unwrap();
    state.resolve_dependencies().unwrap();
    let order = state.stop_order().unwrap();
    let names: Vec<String> = order.iter().map(|k| state.unit_name(*k).to_string()).collect();
    let child = names.iter().position(|n| n == "child").unwrap();
    let base = names.iter().position(|n| n == "base").unwrap();
    assert!(child < base);
}

#[test]
fn child_exit_marks_failure_and_queues_a_restart() {
    let mut state = ForgeState::default();
    let key = service(&mut state, "svc", vec![], vec![], RestartPolicy::OnFailure);
    state.mark_started(key, 42);
    assert_eq!(state.unit_state(key), UnitState::Running);
    assert!(state.on_child_exit(42, 1 << 8));
    assert_eq!(state.unit_state(key), UnitState::Failed);
    assert_eq!(state.next_restart(0), Some(key));
    assert_eq!(state.next_restart(0), None);
    assert!(!state.on_child_exit(42, 0));
}

#[test]
fn clean_exit_does_not_restart_on_failure_services() {
    let mut state = ForgeState::default();
    let key = service(&mut state, "svc", vec![], vec![], RestartPolicy::OnFailure);
    state.mark_started(key, 7);
    assert!(state.on_child_exit(7, 0));
    assert_eq!(state.unit_state(key), UnitState::Dead);
    assert_eq!(state.next_restart(0), None);
}

#[test]
fn no_restarts_while_shutting_down() {
    let mut state = ForgeState::default();
    let key = service(&mut state, "svc", vec![], vec![], RestartPolicy::Always);
    state.begin_shutdown();
    state.mark_started(key, 9);
    assert!(state.on_child_exit(9, 0));
    assert_eq!(state.next_restart(0), None);
}

#[test]
fn restart_bursts_are_limited() {
    let mut state = ForgeState::default();
    for i in 0..5u64 {
        assert!(state.restart_allowed("svc", 1000 + i));
    }
    assert!(!state.restart_allowed("svc", 2000));
    assert!(state.restart_allowed("other", 2000));
    assert!(state.restart_allowed("svc", 1000 + 60_001));
}

#[test]
fn prepend_ordering_needs_a_known_unit() {
    let mut state = ForgeState::default();
    assert!(matches!(state.prepend_ordering("ghost", "x"), Err(ForgeError::NotFound(_))));
    service(&mut state, "app", vec![], vec![], RestartPolicy::No);
    assert!(state.prepend_ordering("app", "dep").is_ok());
}

#[test]
fn status_snapshot_lists_active_units() {
    let mut state = sample_target_state();
    state.resolve_target_closure(&RcDatabase::absent()).unwrap();
    let snapshot = state.status_snapshot();
    let names: Vec<&str> = snapshot.iter().map(|s| s.name.as_str()).collect();
    assert!(names.contains(&"base"));
    assert!(names.contains(&"child"));
}

#[test]
fn error_messages_name_the_units() {
    let e = ForgeError::MissingUnit { unit: "a".into(), dependency: "b".into() };
    assert!(e.message().contains("a"));
    assert!(e.message().contains("b"));
}
