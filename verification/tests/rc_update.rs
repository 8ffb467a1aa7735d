use forge_core::rc_update::{
    marker_path, runlevel_ancestors, runlevel_dir, target_to_runlevel, unit_eligible_for_runlevel, RcDatabase,
};

fn seeded_database() -> RcDatabase {
    RcDatabase { root_exists: true, seeded: true, levels: vec![] }
}

#[test]
fn enable_disable_roundtrip() {
    let mut db = seeded_database();
    db.enable("sshd", "multi-user");
    assert!(db.is_enabled("sshd", "multi-user", &vec![]));
    assert!(db.is_enabled("sshd", "graphical", &vec![]));
    assert!(!db.is_enabled("sshd", "boot", &vec![]));
    db.disable("sshd", "multi-user");
    assert!(!db.is_enabled("sshd", "multi-user", &vec![]));
}

#[test]
fn runlevel_inheritance_chain() {
    let mut db = seeded_database();
    db.enable("sshd", "boot");
    assert!(db.is_enabled("sshd", "boot", &vec![]));
    assert!(db.is_enabled("sshd", "multi-user", &vec![]));
    assert!(db.is_enabled("sshd", "graphical", &vec![]));
    assert!(!db.is_enabled("sshd", "single", &vec![]));
}

#[test]
fn unit_runlevels_field_respects_inheritance() {
    let mut db = seeded_database();
    db.enable("sshd", "multi-user");
    assert!(db.is_enabled("sshd", "graphical", &vec!["multi-user".into()]));
    assert!(!db.is_enabled("sshd", "boot", &vec!["multi-user".into()]));
}

#[test]
fn targets_map_to_runlevels() {
    assert_eq!(target_to_runlevel("Graphical"), "graphical");
    assert_eq!(target_to_runlevel("multi-user"), "multi-user");
    assert_eq!(target_to_runlevel("rescue"), "single");
    assert_eq!(target_to_runlevel("emergency"), "single");
    assert_eq!(target_to_runlevel("BOOT"), "boot");
    assert_eq!(target_to_runlevel("Custom"), "Custom");
}

#[test]
fn ancestors_run_from_specific_to_general() {
    assert_eq!(runlevel_ancestors("graphical"), vec!["graphical", "multi-user", "boot", "sysinit"]);
    assert_eq!(runlevel_ancestors("rescue"), vec!["single", "sysinit"]);
    assert!(runlevel_ancestors("other").is_empty());
}

#[test]
fn marker_paths_join_root_level_and_service() {
    assert_eq!(runlevel_dir("/etc/forge/runlevels", "boot"), "/etc/forge/runlevels/boot");
    assert_eq!(marker_path("/etc/forge/runlevels", "boot", "sshd"), "/etc/forge/runlevels/boot/sshd");
}

#[test]
fn eligibility_follows_declared_runlevels() {
    assert!(unit_eligible_for_runlevel(&vec![], "boot"));
    assert!(unit_eligible_for_runlevel(&vec!["boot".into()], "graphical"));
    assert!(!unit_eligible_for_runlevel(&vec!["graphical".into()], "boot"));
}

#[test]
fn without_a_database_everything_is_enabled() {
    let db = RcDatabase::absent();
    assert!(db.is_enabled("anything", "boot", &vec![]));
    assert!(!db.is_database_active());
}

#[test]
fn unseeded_database_enables_unmarked_services() {
    let mut db = RcDatabase { root_exists: true, seeded: false, levels: vec![] };
    assert!(db.is_enabled("sshd", "boot", &vec![]));
    db.enable("cron", "boot");
    assert!(db.is_enabled("sshd", "boot", &vec![]));
    assert!(db.is_enabled("cron", "multi-user", &vec![]));
    assert!(!db.is_enabled("cron", "single", &vec![]));
}
