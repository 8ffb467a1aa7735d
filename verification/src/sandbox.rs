//! Sandbox flags of a service (systemd `PrivateTmp=`, `ProtectSystem=`, ...).
use vstd::prelude::*;
use crate::service::systemd::{unit_wf, values_of, SystemdUnit};
use crate::text::str_eq;

verus! {

/// Which isolation a service is started with.
#[derive(Debug, Clone, Copy, Default)]
pub struct SandboxConfig {
    pub private_tmp: bool,
    pub protect_system: bool,
    pub private_devices: bool,
    pub no_new_privileges: bool,
}

/// The first value of `key` in `[Service]` turns a flag on: `yes`, `true`, `strict` or `full`.
pub open spec fn flag_on(m: Map<Seq<char>, Map<Seq<char>, Seq<Seq<char>>>>, key: Seq<char>) -> bool {
    let vals = values_of(m, "Service"@, key);
    vals.len() > 0 && (vals[0] == "yes"@ || vals[0] == "true"@ || vals[0] == "strict"@ || vals[0] == "full"@)
}

/// `ProtectSystem=` asks for the strict or full mode.
pub open spec fn protect_mode(m: Map<Seq<char>, Map<Seq<char>, Seq<Seq<char>>>>) -> bool {
    let vals = values_of(m, "Service"@, "ProtectSystem"@);
    vals.len() > 0 && (vals[0] == "strict"@ || vals[0] == "full"@)
}

/// Whether the first value of `key` in `[Service]` turns a flag on.
fn flag(unit: &SystemdUnit, key: &str) -> (r: bool)
    requires
        unit_wf(unit.sections@),
    ensures
        r == flag_on(unit.view_map(), key@),
{
    match unit.get("Service", key) {
        Some(v) => str_eq(v.as_str(), "yes") || str_eq(v.as_str(), "true") || str_eq(v.as_str(), "strict")
            || str_eq(v.as_str(), "full"),
        None => false,
    }
}

impl SandboxConfig {
    /// No isolation at all.
    pub fn none() -> (r: Self)
        ensures
            !r.private_tmp && !r.protect_system && !r.private_devices && !r.no_new_privileges,
    {
        SandboxConfig {
            private_tmp: false,
            protect_system: false,
            private_devices: false,
            no_new_privileges: false,
        }
    }

    /// The sandbox a systemd unit asks for in its `[Service]` section.
    pub fn from_systemd_unit(unit: &SystemdUnit) -> (r: Self)
        requires
            unit_wf(unit.sections@),
        ensures
            r.private_tmp == flag_on(unit.view_map(), "PrivateTmp"@),
            r.protect_system == (protect_mode(unit.view_map()) || flag_on(unit.view_map(), "ProtectSystem"@)),
            r.private_devices == flag_on(unit.view_map(), "PrivateDevices"@),
            r.no_new_privileges == flag_on(unit.view_map(), "NoNewPrivileges"@),
    {
        let protect = match unit.get("Service", "ProtectSystem") {
            Some(v) => str_eq(v.as_str(), "strict") || str_eq(v.as_str(), "full"),
            None => false,
        };
        SandboxConfig {
            private_tmp: flag(unit, "PrivateTmp"),
            protect_system: protect || flag(unit, "ProtectSystem"),
            private_devices: flag(unit, "PrivateDevices"),
            no_new_privileges: flag(unit, "NoNewPrivileges"),
        }
    }
}

} // verus!
