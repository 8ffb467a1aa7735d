//! Boot health and what the init system does about a bad boot.
use vstd::prelude::*;
use crate::text::{lower_seq, parse_u32_range, parse_unsigned, chars_of, str_eq, str_eq_ignore_case, trim, trim_str};

verus! {

/// Failed boots in a row after which the next boot goes to rescue.
pub const MAX_BOOT_ATTEMPTS: u32 = 2;

/// What to do once services are stopped at shutdown.
#[derive(Debug, Clone, Copy, PartialEq, Eq, Structural)]
pub enum ShutdownAction {
    Reboot,
    Halt,
    PowerOff,
}

/// How the boot went.
#[derive(Debug, Clone, Copy, PartialEq, Eq, Structural)]
pub enum BootHealth {
    Healthy,
    Degraded,
    Failed,
}

/// The health of a boot: healthy with the system bus up and no critical unit
/// failed, degraded with at least a login prompt, failed otherwise.
pub open spec fn health_of(dbus_ok: bool, getty_ok: bool, critical_failed: bool) -> BootHealth {
    if dbus_ok && !critical_failed {
        BootHealth::Healthy
    } else if getty_ok {
        BootHealth::Degraded
    } else {
        BootHealth::Failed
    }
}

/// Judges the boot from its health signals.
pub fn assess_boot_health(dbus_ok: bool, getty_ok: bool, critical_failed: bool) -> (r: BootHealth)
    ensures
        r == health_of(dbus_ok, getty_ok, critical_failed),
{
    if dbus_ok && !critical_failed {
        return BootHealth::Healthy;
    }
    if getty_ok {
        return BootHealth::Degraded;
    }
    BootHealth::Failed
}

/// The shutdown action a `FORGE_SHUTDOWN_ACTION` value names, ignoring ASCII case.
pub open spec fn shutdown_action_of(value: Seq<char>) -> ShutdownAction {
    let l = lower_seq(value);
    if l == lower_seq("halt"@) {
        ShutdownAction::Halt
    } else if l == lower_seq("poweroff"@) || l == lower_seq("power-off"@) {
        ShutdownAction::PowerOff
    } else {
        ShutdownAction::Reboot
    }
}

/// The shutdown action `value` names (an unset variable reads as empty): halt,
/// power off, or reboot by default.
pub fn shutdown_action_from(value: &str) -> (r: ShutdownAction)
    ensures
        r == shutdown_action_of(value@),
{
    if str_eq_ignore_case(value, "halt") {
        ShutdownAction::Halt
    } else if str_eq_ignore_case(value, "poweroff") || str_eq_ignore_case(value, "power-off") {
        ShutdownAction::PowerOff
    } else {
        ShutdownAction::Reboot
    }
}

/// The word a shutdown action is logged with.
pub fn shutdown_label(action: ShutdownAction) -> (r: &'static str)
    ensures
        r@ == match action {
            ShutdownAction::Reboot => "reboot"@,
            ShutdownAction::Halt => "halt"@,
            ShutdownAction::PowerOff => "poweroff"@,
        },
{
    match action {
        ShutdownAction::Reboot => "reboot",
        ShutdownAction::Halt => "halt",
        ShutdownAction::PowerOff => "poweroff",
    }
}

/// A `FORGE_RECOVERY_HANDOFF` value enables the handoff to systemd: `1`, or `true`
/// in any ASCII case.
pub fn handoff_enabled_from(value: Option<&str>) -> (r: bool)
    ensures
        r == match value {
            Some(v) => v@ == "1"@ || lower_seq(v@) == lower_seq("true"@),
            None => false,
        },
{
    match value {
        Some(v) => str_eq(v, "1") || str_eq_ignore_case(v, "true"),
        None => false,
    }
}

/// The count of failed boots the attempts file `raw` records: its trimmed number,
/// or 0 when it is unreadable or no number.
pub fn parse_boot_attempts(raw: Option<&str>) -> (r: u32)
    ensures
        r == match raw {
            Some(s) => match parse_unsigned(trim(s@), u32::MAX as nat) {
                Some(n) => n as u32,
                None => 0,
            },
            None => 0,
        },
{
    match raw {
        Some(s) => {
            let t = trim_str(s);
            let v = chars_of(t.as_str());
            assert(v@.subrange(0, v@.len() as int) =~= v@);
            match parse_u32_range(v.as_slice(), 0, v.len()) {
                Some(n) => n,
                None => 0,
            }
        },
        None => 0,
    }
}

/// What the first steps of PID 1 do about earlier failed boots.
#[derive(Debug, Clone, Copy, PartialEq, Eq, Structural)]
pub enum BootAttemptPlan {
    /// Boot as asked.
    Proceed,
    /// Too many failed boots: hand the machine to systemd.
    HandOff,
    /// Too many failed boots: boot the rescue target.
    Rescue,
}

/// The count of this boot attempt, after `previous` failed ones, and what to do
/// about it: past `MAX_BOOT_ATTEMPTS`, hand off to systemd if that is enabled and
/// go to rescue otherwise.
pub fn boot_attempt_plan(previous: u32, handoff_enabled: bool) -> (r: (u32, BootAttemptPlan))
    ensures
        r.0 == (if previous == u32::MAX { u32::MAX } else { (previous + 1) as u32 }),
        r.1 == if r.0 > MAX_BOOT_ATTEMPTS {
            if handoff_enabled { BootAttemptPlan::HandOff } else { BootAttemptPlan::Rescue }
        } else {
            BootAttemptPlan::Proceed
        },
{
    let attempts = previous.saturating_add(1);
    let plan = if attempts > MAX_BOOT_ATTEMPTS {
        if handoff_enabled { BootAttemptPlan::HandOff } else { BootAttemptPlan::Rescue }
    } else {
        BootAttemptPlan::Proceed
    };
    (attempts, plan)
}

/// What to do after boot, given its health.
#[derive(Debug, Clone, Copy, PartialEq, Eq, Structural)]
pub struct RecoveryPlan {
    /// Reset the failed-boot counter and mark the boot good.
    pub mark_success: bool,
    /// Start an emergency login prompt.
    pub emergency_getty: bool,
    /// Hand over to systemd after a delay unless the system bus recovers.
    pub schedule_handoff: bool,
}

/// The recovery steps for a boot of health `health`: a usable boot is marked good;
/// a failed one gets an emergency login and, when enabled, a delayed handoff.
pub fn post_boot_recovery(health: BootHealth, handoff_enabled: bool) -> (r: RecoveryPlan)
    ensures
        r.mark_success == (health != BootHealth::Failed),
        r.emergency_getty == (health == BootHealth::Failed),
        r.schedule_handoff == (health == BootHealth::Failed && handoff_enabled),
{
    match health {
        BootHealth::Healthy => RecoveryPlan { mark_success: true, emergency_getty: false, schedule_handoff: false },
        BootHealth::Degraded => RecoveryPlan { mark_success: true, emergency_getty: false, schedule_handoff: false },
        BootHealth::Failed => RecoveryPlan { mark_success: false, emergency_getty: true, schedule_handoff: handoff_enabled },
    }
}

/// PID 1 never wraps daemons in `runcon`: their domains come from `*_exec_t` transitions.
pub fn should_use_runcon() -> (r: bool)
    ensures
        !r,
{
    false
}

} // verus!
