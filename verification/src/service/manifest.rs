//! Descriptions of units as the loaders hand them to the service manager.
use vstd::prelude::*;
use crate::cgroup::ServiceLimits;
use crate::sandbox::SandboxConfig;
use super::forge::RestartPolicy;

verus! {

/// How the manager tells that a service has started.
#[derive(Debug, Clone, Copy, PartialEq, Eq, Structural)]
pub enum ServiceType {
    Simple,
    Notify,
    NotifyReload,
    Oneshot,
    Dbus,
    Forking,
}

impl Default for ServiceType {
    fn default() -> (r: Self)
        ensures
            r == ServiceType::Simple,
    {
        ServiceType::Simple
    }
}

/// A service unit as loaded from a unit file.
#[derive(Debug, Clone)]
pub struct ServiceManifest {
    pub name: String,
    pub exec_path: String,
    pub args: Vec<String>,
    pub after: Vec<String>,
    pub requires: Vec<String>,
    pub wants: Vec<String>,
    pub sockets: Vec<String>,
    pub restart: RestartPolicy,
    pub cgroup: ServiceLimits,
    pub service_type: ServiceType,
    pub environment: Vec<(String, String)>,
    pub exec_start_pre: Option<(String, Vec<String>)>,
    /// Required when service_type is Dbus — well-known bus name to await.
    pub bus_name: Option<String>,
    pub sandbox: SandboxConfig,
    /// Parsed from Service User=
    pub user: Option<String>,
    /// Parsed from Service Group=
    pub group: Option<String>,
    /// Parsed from Service WorkingDirectory=
    pub working_directory: Option<String>,
    /// OpenRC runlevels this service may belong to (empty = all).
    pub runlevels: Vec<String>,
    pub timeout_secs: Option<u64>,
    pub pidfile: Option<String>,
    /// Virtual names declared with `provide = [...]` (OpenRC-style providers).
    pub provides: Vec<String>,
    /// Custom stop command; takes precedence over `stop_signal`.
    pub stop_cmd: Option<(String, Vec<String>)>,
    /// Signal name to send on graceful stop (e.g. `"SIGTERM"`). Default: SIGTERM.
    pub stop_signal: Option<String>,
    /// Custom reload command; runs without stopping the service.
    pub reload_cmd: Option<(String, Vec<String>)>,
    /// Signal name to send on reload (e.g. `"SIGHUP"`). Default: SIGHUP.
    pub reload_signal: Option<String>,
    /// Watchdog timeout in microseconds (from WatchdogSec or WATCHDOG_USEC).
    pub watchdog_usec: Option<u64>,
}

impl ServiceManifest {
    /// A simple service running `program` with nothing else configured.
    pub fn new(name: String, program: String) -> (r: Self)
        ensures
            r.name == name,
            r.exec_path == program,
            r.args@.len() == 0,
            r.after@.len() == 0,
            r.requires@.len() == 0,
            r.wants@.len() == 0,
            r.sockets@.len() == 0,
            r.restart == RestartPolicy::No,
            r.cgroup.memory_max is None,
            r.cgroup.tasks_max is None,
            r.service_type == ServiceType::Simple,
            r.environment@.len() == 0,
            r.exec_start_pre is None,
            r.bus_name is None,
            !r.sandbox.private_tmp && !r.sandbox.protect_system && !r.sandbox.private_devices
                && !r.sandbox.no_new_privileges,
            r.user is None,
            r.group is None,
            r.working_directory is None,
            r.runlevels@.len() == 0,
            r.timeout_secs is None,
            r.pidfile is None,
            r.provides@.len() == 0,
            r.stop_cmd is None,
            r.stop_signal is None,
            r.reload_cmd is None,
            r.reload_signal is None,
            r.watchdog_usec is None,
    {
        ServiceManifest {
            name,
            exec_path: program,
            args: Vec::new(),
            after: Vec::new(),
            requires: Vec::new(),
            wants: Vec::new(),
            sockets: Vec::new(),
            restart: RestartPolicy::No,
            cgroup: ServiceLimits { memory_max: None, tasks_max: None },
            service_type: ServiceType::Simple,
            environment: Vec::new(),
            exec_start_pre: None,
            bus_name: None,
            sandbox: SandboxConfig::none(),
            user: None,
            group: None,
            working_directory: None,
            runlevels: Vec::new(),
            timeout_secs: None,
            pidfile: None,
            provides: Vec::new(),
            stop_cmd: None,
            stop_signal: None,
            reload_cmd: None,
            reload_signal: None,
            watchdog_usec: None,
        }
    }
}

/// A device unit: `service` is started once `path` appears.
#[derive(Debug, Clone)]
pub struct DeviceManifest {
    pub name: String,
    pub path: String,
    pub service: String,
    pub after: Vec<String>,
}

/// A timer unit; its delays are held in microseconds.
#[derive(Debug, Clone)]
pub struct TimerManifest {
    pub name: String,
    pub unit: String,
    pub after: Vec<String>,
    pub on_boot_usec: Option<u64>,
    pub on_unit_active_usec: Option<u64>,
}

/// A mount unit.
#[derive(Debug, Clone)]
pub struct MountManifest {
    pub name: String,
    pub what: String,
    pub where_: String,
    pub fstype: String,
    pub options: String,
    pub after: Vec<String>,
}

} // verus!
