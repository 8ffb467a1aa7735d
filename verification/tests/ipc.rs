use forge_core::ipc::{
    action_reply, all_runlevels_listing, log_lines, plan_request, runlevel_listing, services_named, ControlAction,
    DEFAULT_LOG_TAIL,
};
use forge_core::journal::JournalEntry;
use forge_core::protocol::{ControlRequest, ControlResponse, ServiceStatus};

fn message_of(r: ControlResponse) -> String {
    match r {
        ControlResponse::Success { message: Some(m), .. } => m,
        other => panic!("unexpected response {other:?}"),
    }
}

#[test]
fn requests_get_their_defaults() {
    match plan_request(ControlRequest::Logs { name: "sshd".into(), tail: None }) {
        ControlAction::Logs { name, tail } => {
            assert_eq!(name, "sshd");
            assert_eq!(tail, DEFAULT_LOG_TAIL);
            assert_eq!(tail, 50);
        }
        other => panic!("unexpected {other:?}"),
    }
    match plan_request(ControlRequest::Enable { service: "sshd".into(), runlevel: None }) {
        ControlAction::Enable { service, runlevel } => {
            assert_eq!(service, "sshd");
            assert_eq!(runlevel, "graphical");
        }
        other => panic!("unexpected {other:?}"),
    }
    match plan_request(ControlRequest::RcUpdateDel { service: "cron".into(), runlevel: "boot".into() }) {
        ControlAction::Disable { service, runlevel } => {
            assert_eq!(service, "cron");
            assert_eq!(runlevel, "boot");
        }
        other => panic!("unexpected {other:?}"),
    }
}

#[test]
fn done_actions_are_answered_with_messages() {
    let start = ControlAction::Start { name: "web".into() };
    assert_eq!(message_of(action_reply(&start, Ok(Some(42)))), "started 'web' (pid 42)");
    let stop = ControlAction::Stop { name: "web".into() };
    assert_eq!(message_of(action_reply(&stop, Ok(None))), "stopped 'web'");
    let enable = ControlAction::Enable { service: "sshd".into(), runlevel: "boot".into() };
    assert_eq!(message_of(action_reply(&enable, Ok(None))), "enabled 'sshd' for 'boot'");
    assert_eq!(message_of(action_reply(&ControlAction::Shutdown, Ok(None))), "shutdown initiated");
    match action_reply(&stop, Err("service 'web' is not running".into())) {
        ControlResponse::Error { message } => assert_eq!(message, "service 'web' is not running"),
        other => panic!("unexpected {other:?}"),
    }
}

#[test]
fn status_of_one_service_filters_the_snapshot() {
    let snap = vec![
        ServiceStatus { name: "a".into(), kind: "service".into(), state: "Running".into(), pid: Some(1) },
        ServiceStatus { name: "b".into(), kind: "service".into(), state: "Dead".into(), pid: None },
    ];
    let only_b = services_named(snap, "b");
    assert_eq!(only_b.len(), 1);
    assert_eq!(only_b[0].name, "b");
}

#[test]
fn log_lines_list_journal_then_file() {
    let journal = vec![JournalEntry { ts: 7, unit: "a".into(), priority: 6, message: "hello".into(), pid: None }];
    let lines = log_lines(&journal, &vec!["out".to_string()]);
    assert_eq!(lines.len(), 2);
    assert_eq!(lines[0].source, "journal");
    assert_eq!(lines[0].ts, Some(7));
    assert_eq!(lines[0].message, "hello");
    assert_eq!(lines[1].source, "stdout");
    assert_eq!(lines[1].ts, None);
    assert_eq!(lines[1].message, "out");
}

#[test]
fn runlevel_listings() {
    assert_eq!(runlevel_listing("boot", &vec!["a".into(), "b".into()]), "boot: a b");
    assert_eq!(runlevel_listing("boot", &vec![]), "boot: ");
    let all = vec![("boot".to_string(), vec!["a".to_string()]), ("default".to_string(), vec![])];
    assert_eq!(all_runlevels_listing(&all), "boot: a\ndefault: ");
}
