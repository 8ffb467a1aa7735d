//! Control-socket protocol types shared by `forgectl` and the init process.
use vstd::prelude::*;

verus! {

/// Path of the control socket when `FORGE_CONTROL_SOCKET` is unset.
pub const DEFAULT_CONTROL_SOCKET: &'static str = "/run/forge/control.sock";

/// A request sent to the init process over the control socket.
#[derive(Debug, Clone)]
pub enum ControlRequest {
    Status,
    BootProfile,
    Logs { name: String, tail: Option<usize> },
    Start { name: String },
    Stop { name: String },
    Restart { name: String },
    Reload { name: String },
    ActivateTarget { name: String },
    Enable { service: String, runlevel: Option<String> },
    Disable { service: String, runlevel: Option<String> },
    Service { name: String },
    RcUpdateAdd { service: String, runlevel: String },
    RcUpdateDel { service: String, runlevel: String },
    RcUpdateShow { runlevel: Option<String> },
    Shutdown,
}

/// One unit as `forgectl status` lists it.
#[derive(Debug, Clone)]
pub struct ServiceStatus {
    pub name: String,
    pub kind: String,
    pub state: String,
    pub pid: Option<u32>,
}

/// One log line of a unit.
#[derive(Debug, Clone)]
pub struct LogLine {
    pub source: String,
    pub ts: Option<u128>,
    pub message: String,
}

/// The units started in one boot wave and how long the wave took.
#[derive(Debug, Clone)]
pub struct WaveTiming {
    pub wave: usize,
    pub services: Vec<String>,
    pub duration_ms: u128,
}

/// Timing of the whole boot.
#[derive(Debug, Clone)]
pub struct BootProfileReport {
    pub total_boot_ms: u128,
    pub active_target: String,
    pub waves: Vec<WaveTiming>,
}

/// The answer to a control request.
#[derive(Debug, Clone)]
pub enum ControlResponse {
    Success {
        message: Option<String>,
        services: Option<Vec<ServiceStatus>>,
        profile: Option<BootProfileReport>,
        logs: Option<Vec<LogLine>>,
    },
    Error { message: String },
}

impl ControlResponse {
    /// A success carrying only a message.
    pub fn ok_message(message: String) -> (r: Self)
        ensures
            r == (ControlResponse::Success { message: Some(message), services: None, profile: None, logs: None }),
    {
        ControlResponse::Success { message: Some(message), services: None, profile: None, logs: None }
    }

    /// A success carrying only log lines.
    pub fn ok_logs(logs: Vec<LogLine>) -> (r: Self)
        ensures
            r == (ControlResponse::Success { message: None, services: None, profile: None, logs: Some(logs) }),
    {
        ControlResponse::Success { message: None, services: None, profile: None, logs: Some(logs) }
    }

    /// A success carrying only unit statuses.
    pub fn ok_services(services: Vec<ServiceStatus>) -> (r: Self)
        ensures
            r == (ControlResponse::Success { message: None, services: Some(services), profile: None, logs: None }),
    {
        ControlResponse::Success { message: None, services: Some(services), profile: None, logs: None }
    }

    /// A success carrying only the boot profile.
    pub fn ok_profile(profile: BootProfileReport) -> (r: Self)
        ensures
            r == (ControlResponse::Success { message: None, services: None, profile: Some(profile), logs: None }),
    {
        ControlResponse::Success { message: None, services: None, profile: Some(profile), logs: None }
    }

    /// A failure with a message.
    pub fn err(message: String) -> (r: Self)
        ensures
            r == (ControlResponse::Error { message }),
    {
        ControlResponse::Error { message }
    }
}

} // verus!
