use forge_core::cli::{
    journal_text, log_text, parse_command, parse_journal_args, profile_header, status_line, tail_option, wave_line,
};
use forge_core::journal::JournalEntry;
use forge_core::protocol::{BootProfileReport, ControlRequest, LogLine, ServiceStatus, WaveTiming};

fn args(v: &[&str]) -> Vec<String> {
    v.iter().map(|s| s.to_string()).collect()
}

#[test]
fn forgectl_simple_commands() {
    assert!(matches!(parse_command(&args(&["status"])), Some(ControlRequest::Status)));
    assert!(matches!(parse_command(&args(&["profile"])), Some(ControlRequest::BootProfile)));
    assert!(matches!(parse_command(&args(&["boot-profile"])), Some(ControlRequest::BootProfile)));
    assert!(matches!(parse_command(&args(&["shutdown"])), Some(ControlRequest::Shutdown)));
    assert!(parse_command(&args(&[])).is_none());
}

#[test]
fn forgectl_named_commands() {
    match parse_command(&args(&["start", "sshd"])) {
        Some(ControlRequest::Start { name }) => assert_eq!(name, "sshd"),
        other => panic!("unexpected {other:?}"),
    }
    match parse_command(&args(&["activate-target", "rescue"])) {
        Some(ControlRequest::ActivateTarget { name }) => assert_eq!(name, "rescue"),
        other => panic!("unexpected {other:?}"),
    }
    assert!(parse_command(&args(&["stop"])).is_none());
    match parse_command(&args(&["sshd"])) {
        Some(ControlRequest::Service { name }) => assert_eq!(name, "sshd"),
        other => panic!("unexpected {other:?}"),
    }
    assert!(parse_command(&args(&["--verbose"])).is_none());
    assert!(parse_command(&args(&["sshd", "extra"])).is_none());
}

#[test]
fn forgectl_logs_tail() {
    match parse_command(&args(&["logs", "sshd", "--tail", "20"])) {
        Some(ControlRequest::Logs { name, tail }) => {
            assert_eq!(name, "sshd");
            assert_eq!(tail, Some(20));
        }
        other => panic!("unexpected {other:?}"),
    }
    match parse_command(&args(&["logs", "sshd", "--tail", "x"])) {
        Some(ControlRequest::Logs { tail, .. }) => assert_eq!(tail, None),
        other => panic!("unexpected {other:?}"),
    }
    assert_eq!(tail_option(&args(&["logs", "a", "--tail"])), None);
    assert_eq!(tail_option(&args(&["--tail", "3", "--tail", "4"])), Some(3));
}

#[test]
fn forgectl_runlevel_commands() {
    match parse_command(&args(&["enable", "sshd"])) {
        Some(ControlRequest::Enable { service, runlevel }) => {
            assert_eq!(service, "sshd");
            assert_eq!(runlevel, None);
        }
        other => panic!("unexpected {other:?}"),
    }
    match parse_command(&args(&["disable", "sshd", "default"])) {
        Some(ControlRequest::Disable { service, runlevel }) => {
            assert_eq!(service, "sshd");
            assert_eq!(runlevel.as_deref(), Some("default"));
        }
        other => panic!("unexpected {other:?}"),
    }
    match parse_command(&args(&["rc-update", "add", "sshd", "default"])) {
        Some(ControlRequest::RcUpdateAdd { service, runlevel }) => {
            assert_eq!(service, "sshd");
            assert_eq!(runlevel, "default");
        }
        other => panic!("unexpected {other:?}"),
    }
    match parse_command(&args(&["rc-update", "remove", "sshd", "boot"])) {
        Some(ControlRequest::RcUpdateDel { service, runlevel }) => {
            assert_eq!(service, "sshd");
            assert_eq!(runlevel, "boot");
        }
        other => panic!("unexpected {other:?}"),
    }
    match parse_command(&args(&["rc-update", "show"])) {
        Some(ControlRequest::RcUpdateShow { runlevel }) => assert_eq!(runlevel, None),
        other => panic!("unexpected {other:?}"),
    }
    match parse_command(&args(&["ls", "boot"])) {
        Some(ControlRequest::RcUpdateShow { runlevel }) => assert_eq!(runlevel.as_deref(), Some("boot")),
        other => panic!("unexpected {other:?}"),
    }
    assert!(parse_command(&args(&["rc-update", "add", "sshd"])).is_none());
    assert!(parse_command(&args(&["rc-update", "bogus"])).is_none());
    assert!(parse_command(&args(&["rc-update"])).is_none());
}

#[test]
fn status_lines_are_padded() {
    let svc = ServiceStatus { name: "sshd".to_string(), kind: "service".to_string(), state: "Running".to_string(), pid: Some(42) };
    assert_eq!(status_line(&svc), format!("{:16} {:8} {:12} pid={}", "sshd", "service", "Running", 42));
    let long = ServiceStatus {
        name: "a-very-long-service-name".to_string(),
        kind: "target".to_string(),
        state: "Dead".to_string(),
        pid: None,
    };
    assert_eq!(status_line(&long), "a-very-long-service-name target   Dead         pid=-");
}

#[test]
fn profile_and_log_lines() {
    let p = BootProfileReport { total_boot_ms: 1234, active_target: "graphical".to_string(), waves: vec![] };
    assert_eq!(profile_header(&p), "Boot 1234 ms \u{2014} target 'graphical'");
    let w = WaveTiming { wave: 2, services: vec!["a".to_string(), "b".to_string()], duration_ms: 15 };
    assert_eq!(wave_line(&w), "  wave 2: 15 ms \u{2014} a, b");
    let l = LogLine { source: "journal".to_string(), ts: Some(99), message: "hi".to_string() };
    assert_eq!(log_text(&l), "[journal] 99: hi");
    let l2 = LogLine { source: "stdout".to_string(), ts: None, message: "x".to_string() };
    assert_eq!(log_text(&l2), "[stdout] x");
}

#[test]
fn journal_entry_text() {
    let e = JournalEntry { ts: 5, unit: "sshd".to_string(), priority: 6, message: "up".to_string(), pid: Some(7) };
    assert_eq!(journal_text(&e), "5 [6] sshd pid=7: up");
    let e2 = JournalEntry { ts: 5, unit: "sshd".to_string(), priority: 3, message: "down".to_string(), pid: None };
    assert_eq!(journal_text(&e2), "5 [3] sshd: down");
}

#[test]
fn journalctl_options() {
    let q = parse_journal_args(&args(&["-u", "sshd", "-p", "4", "-n", "10"]), 0).unwrap();
    assert_eq!(q.unit.as_deref(), Some("sshd"));
    assert_eq!(q.priority_max, Some(4));
    assert_eq!(q.tail, 10);
    assert_eq!(q.since_ts, None);
    assert!(!q.follow);
    let q2 = parse_journal_args(&args(&["--since-boot"]), 5_000_000).unwrap();
    assert_eq!(q2.since_ts, Some(1_400_000));
    let q3 = parse_journal_args(&args(&["--since-boot"]), 10).unwrap();
    assert_eq!(q3.since_ts, Some(0));
    assert!(parse_journal_args(&args(&["-p", "300"]), 0).is_none());
    assert!(parse_journal_args(&args(&["-u"]), 0).is_none());
    assert!(parse_journal_args(&args(&["-h"]), 0).is_none());
    assert!(parse_journal_args(&args(&["--bogus"]), 0).is_none());
    let empty = parse_journal_args(&args(&[]), 0).unwrap();
    assert_eq!(empty.tail, 0);
}
