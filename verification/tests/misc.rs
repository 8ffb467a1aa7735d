use forge_core::jobs::{JobQueue, JobResult, JobState};
use forge_core::journal::{journal_path_display, query_entries, read_unit_logs, tail_lines, JournalEntry, JournalQuery};
use forge_core::notify::parse_notify;
use forge_core::recovery::{
    assess_boot_health, boot_attempt_plan, handoff_enabled_from, parse_boot_attempts, post_boot_recovery,
    shutdown_action_from, shutdown_label, BootAttemptPlan, BootHealth, ShutdownAction,
};
use forge_core::service::socket::{listen_label, parse_listen, ListenSpec};
use forge_core::wait_status::{child_exit_code, child_exited, child_failed, child_signaled};

fn entry(ts: u128, unit: &str, priority: u8, message: &str) -> JournalEntry {
    JournalEntry { ts, unit: unit.into(), priority, message: message.into(), pid: None }
}

#[test]
fn notify_messages_set_their_fields() {
    let m = parse_notify("READY=1\nSTATUS= serving \nWATCHDOG_USEC=5000000\n");
    assert!(m.ready);
    assert!(!m.stopping);
    assert_eq!(m.status.as_deref(), Some("serving"));
    assert_eq!(m.watchdog_usec, Some(5_000_000));
    let m = parse_notify("watchdog=1\nWATCHDOG_USEC=soon\nSTOPPING=1");
    assert!(m.watchdog);
    assert!(m.stopping);
    assert_eq!(m.watchdog_usec, None);
}

#[test]
fn job_ids_count_up_and_finished_jobs_move_to_history() {
    let mut q = JobQueue::new();
    let a = q.enqueue("a.service", "replace", 10);
    let b = q.enqueue("b.service", "replace", 11);
    assert_eq!(a.id, 1);
    assert_eq!(b.id, 2);
    assert_eq!(a.state, JobState::Waiting);
    assert_eq!(a.object_path(), "/org/freedesktop/systemd1/job/1");
    let done = q.finish(1, JobResult::Done).unwrap();
    assert_eq!(done.result, Some(JobResult::Done));
    assert!(q.finish(1, JobResult::Done).is_none());
    assert_eq!(q.active_jobs().len(), 1);
    assert_eq!(q.recent(5).len(), 1);
    assert_eq!(q.recent(5)[0].id, 1);
}

#[test]
fn journal_queries_filter_and_tail() {
    let entries = vec![entry(1, "a", 6, "one"), entry(2, "b", 3, "two"), entry(3, "a", 4, "three")];
    let q = JournalQuery { unit: Some("a".into()), priority_max: Some(4), since_ts: None, tail: 0, follow: false };
    let r = query_entries(&entries, &q);
    assert_eq!(r.len(), 1);
    assert_eq!(r[0].message, "three");
    let r = read_unit_logs(&entries, "a", 1);
    assert_eq!(r.len(), 1);
    assert_eq!(r[0].ts, 3);
    assert_eq!(read_unit_logs(&entries, "a", 0).len(), 2);
    assert_eq!(tail_lines(vec!["x".into(), "y".into(), "z".into()], 2), vec!["y".to_string(), "z".to_string()]);
    assert_eq!(journal_path_display(None, false), "/run/forge/journal.jsonl");
    assert_eq!(journal_path_display(None, true), "/var/log/forge/journal.jsonl");
    assert_eq!(journal_path_display(Some("/tmp/j"), true), "/tmp/j");
}

#[test]
fn recovery_decisions() {
    assert_eq!(assess_boot_health(true, false, false), BootHealth::Healthy);
    assert_eq!(assess_boot_health(true, true, true), BootHealth::Degraded);
    assert_eq!(assess_boot_health(false, false, false), BootHealth::Failed);
    assert_eq!(shutdown_action_from("HALT"), ShutdownAction::Halt);
    assert_eq!(shutdown_action_from("power-off"), ShutdownAction::PowerOff);
    assert_eq!(shutdown_action_from(""), ShutdownAction::Reboot);
    assert_eq!(shutdown_label(ShutdownAction::PowerOff), "poweroff");
    assert!(handoff_enabled_from(Some("True")));
    assert!(!handoff_enabled_from(Some("yes")));
    assert!(!handoff_enabled_from(None));
    assert_eq!(parse_boot_attempts(Some(" 3\n")), 3);
    assert_eq!(parse_boot_attempts(Some("x")), 0);
    assert_eq!(boot_attempt_plan(0, true), (1, BootAttemptPlan::Proceed));
    assert_eq!(boot_attempt_plan(u32::MAX, false).1, BootAttemptPlan::Rescue);
    let plan = post_boot_recovery(BootHealth::Failed, true);
    assert!(plan.emergency_getty && plan.schedule_handoff && !plan.mark_success);
}

#[test]
fn listen_lines() {
    assert!(matches!(parse_listen("netlink:kobject-uevent:4"), ListenSpec::Netlink { family: 4 }));
    assert!(matches!(parse_listen("netlink:route"), ListenSpec::Netlink { family: 1 }));
    match parse_listen("seqpacket:/run/x.sock") {
        ListenSpec::UnixSeqpacket(p) => assert_eq!(p, "/run/x.sock"),
        _ => panic!("seqpacket expected"),
    }
    match parse_listen("/run/udev/control") {
        ListenSpec::UnixSeqpacket(p) => assert_eq!(p, "/run/udev/control"),
        _ => panic!("seqpacket expected"),
    }
    match parse_listen("/run/dbus/system_bus_socket") {
        ListenSpec::UnixStream(p) => assert_eq!(p, "/run/dbus/system_bus_socket"),
        _ => panic!("stream expected"),
    }
    assert_eq!(listen_label(&ListenSpec::Netlink { family: 15 }), "netlink:15");
}

#[test]
fn wait_statuses_decode() {
    assert!(child_exited(3 << 8));
    assert_eq!(child_exit_code(3 << 8), 3);
    assert!(child_failed(3 << 8));
    assert!(!child_failed(0));
    assert!(child_signaled(9));
    assert!(child_failed(9));
}
