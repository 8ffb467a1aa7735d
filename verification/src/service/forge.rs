//! The service manager's state: the unit arena, name resolution, the boot
//! closure of a target, the dependency order and the boot waves.
use vstd::prelude::*;
use std::collections::HashMap;
use std::collections::VecDeque;
use crate::cgroup::ServiceLimits;
use crate::protocol::{BootProfileReport, ServiceStatus, WaveTiming};
use crate::sandbox::SandboxConfig;
use crate::text::{concat, decimal, join_with, joined, lemma_seq_lt_total, parse_u64, parse_unsigned, seq_lt, str_eq, str_lt, str_to_string, strings_view, u64_to_string};
use crate::environment::{env_map, keys_unique, merge_environment, pairs_view};
use crate::notify::NotifyMessage;
use crate::jobs::{Job, JobQueue, JobResult};
use crate::wait_status::{child_failed, exit_code, exit_failed, exited};
use crate::rc_update::{runlevel_of, target_to_runlevel, RcDatabase};
use crate::graph::{adj_bounded, bfs, edge, lemma_path_step, lemma_start_reachable, successor_keys, successors, count_unset, flagged, flagged_keys, lemma_count_unset_set, lemma_reachable_bounded, listed, reachable};
use super::manifest::{DeviceManifest, MountManifest, ServiceManifest, ServiceType, TimerManifest};

verus! {

broadcast use vstd::std_specs::hash::group_hash_axioms;

/// Position of a unit in the manager's arena.
pub type UnitKey = usize;

/// Lifecycle state of a unit.
#[derive(Debug, Clone, Copy, PartialEq, Eq, Structural)]
pub enum UnitState {
    Dead,
    Starting,
    Listening,
    Running,
    Failed,
    Stopping,
}

/// When a service that exited is started again.
#[derive(Debug, Clone, Copy, PartialEq, Eq, Structural)]
pub enum RestartPolicy {
    No,
    OnFailure,
    Always,
}

impl Default for RestartPolicy {
    fn default() -> (r: Self)
        ensures
            r == RestartPolicy::No,
    {
        RestartPolicy::No
    }
}

/// What a unit is, with its configuration and runtime data.
#[derive(Debug)]
pub enum UnitKind {
    Service {
        exec_path: String,
        args: Vec<String>,
        after: Vec<String>,
        requires: Vec<String>,
        wants: Vec<String>,
        sockets: Vec<String>,
        restart: RestartPolicy,
        cgroup: ServiceLimits,
        service_type: ServiceType,
        environment: Vec<(String, String)>,
        exec_start_pre: Option<(String, Vec<String>)>,
        bus_name: Option<String>,
        sandbox: SandboxConfig,
        user: Option<String>,
        group: Option<String>,
        working_directory: Option<String>,
        runlevels: Vec<String>,
        timeout_secs: Option<u64>,
        pidfile: Option<String>,
        pid: Option<u32>,
        /// WATCHDOG_USEC (in microseconds) if the service uses sd_notify watchdog.
        watchdog_usec: Option<u64>,
        /// Microseconds on the manager's clock of the last watchdog ping.
        last_watchdog: Option<u64>,
        /// Custom stop command; takes precedence over `stop_signal`.
        stop_cmd: Option<(String, Vec<String>)>,
        /// Signal name to send on graceful stop. Default: SIGTERM.
        stop_signal: Option<String>,
        /// Custom reload command; runs without stopping the service.
        reload_cmd: Option<(String, Vec<String>)>,
        /// Signal name to send on reload. Default: SIGHUP.
        reload_signal: Option<String>,
    },
    Timer { unit: String, after: Vec<String>, on_boot_usec: Option<u64>, fired: bool },
    Mount {
        what: String,
        where_: String,
        fstype: String,
        options: String,
        after: Vec<String>,
        mounted: bool,
    },
    Device { path: String, service: String, after: Vec<String>, activated: bool },
    /// `activation` lists the labels of the listening sockets once they are open.
    Socket {
        listen: Vec<String>,
        service: Option<String>,
        after: Vec<String>,
        activation: Option<Vec<String>>,
    },
    Target { requires: Vec<String>, wants: Vec<String> },
}

/// One unit in the arena.
#[derive(Debug)]
pub struct Unit {
    pub name: String,
    pub kind: UnitKind,
    pub state: UnitState,
    pub dependencies: Vec<UnitKey>,
    pub last_exit: Option<i32>,
}

/// Why an operation of the manager failed.
#[derive(Debug, Clone)]
pub enum ForgeError {
    DuplicateName(String),
    MissingUnit { unit: String, dependency: String },
    CycleDetected,
    SpawnFailed { name: String, error: String },
    SocketFailed { name: String, error: String },
    NotFound(String),
    NotService(String),
    NotRunning(String),
    InvalidOperation(String),
}

/// The text of an error, as the manager reports it.
pub open spec fn error_text(e: ForgeError) -> Seq<char> {
    match e {
        ForgeError::DuplicateName(name) => "duplicate unit name '"@ + name@ + "'"@,
        ForgeError::MissingUnit { unit, dependency } => "unit '"@ + unit@ + "' references unknown '"@ + dependency@ + "'"@,
        ForgeError::CycleDetected => "dependency cycle detected"@,
        ForgeError::SpawnFailed { name, error } => "failed to start '"@ + name@ + "': "@ + error@,
        ForgeError::SocketFailed { name, error } => "socket '"@ + name@ + "' failed: "@ + error@,
        ForgeError::NotFound(name) => "unit '"@ + name@ + "' not found"@,
        ForgeError::NotService(name) => "'"@ + name@ + "' is not a service unit"@,
        ForgeError::NotRunning(name) => "service '"@ + name@ + "' is not running"@,
        ForgeError::InvalidOperation(msg) => msg@,
    }
}

/// `a`, `b` and `c` one after the other.
fn concat3(a: &str, b: &str, c: &str) -> (r: String)
    ensures
        r@ == a@ + b@ + c@,
{
    let ab = concat(a, b);
    concat(ab.as_str(), c)
}

impl ForgeError {
    /// The text of the error.
    pub fn message(&self) -> (r: String)
        ensures
            r@ == error_text(*self),
    {
        match self {
            ForgeError::DuplicateName(name) => concat3("duplicate unit name '", name.as_str(), "'"),
            ForgeError::MissingUnit { unit, dependency } => {
                let a = concat3("unit '", unit.as_str(), "' references unknown '");
                concat3(a.as_str(), dependency.as_str(), "'")
            },
            ForgeError::CycleDetected => "dependency cycle detected".to_string(),
            ForgeError::SpawnFailed { name, error } => {
                let a = concat3("failed to start '", name.as_str(), "': ");
                concat(a.as_str(), error.as_str())
            },
            ForgeError::SocketFailed { name, error } => {
                let a = concat3("socket '", name.as_str(), "' failed: ");
                concat(a.as_str(), error.as_str())
            },
            ForgeError::NotFound(name) => concat3("unit '", name.as_str(), "' not found"),
            ForgeError::NotService(name) => concat3("'", name.as_str(), "' is not a service unit"),
            ForgeError::NotRunning(name) => concat3("service '", name.as_str(), "' is not running"),
            ForgeError::InvalidOperation(msg) => str_to_string(msg.as_str()),
        }
    }
}

/// Names a unit pulls in as hard dependencies: a target's and a service's `requires`,
/// and the service a socket activates.
pub open spec fn kind_requires(k: UnitKind) -> Seq<Seq<char>> {
    match k {
        UnitKind::Target { requires: reqs, .. } => strings_view(reqs@),
        UnitKind::Service { requires: reqs, .. } => strings_view(reqs@),
        UnitKind::Socket { service, .. } => match service {
            Some(s) => seq![s@],
            None => Seq::empty(),
        },
        _ => Seq::empty(),
    }
}

/// Names a unit pulls in as soft dependencies: `wants`, and the service of a device.
pub open spec fn kind_wants(k: UnitKind) -> Seq<Seq<char>> {
    match k {
        UnitKind::Target { wants, .. } => strings_view(wants@),
        UnitKind::Service { wants, .. } => strings_view(wants@),
        UnitKind::Device { service, .. } => seq![service@],
        _ => Seq::empty(),
    }
}

/// The `after` ordering names of a unit; a target has none.
pub open spec fn kind_after(k: UnitKind) -> Seq<Seq<char>> {
    match k {
        UnitKind::Service { after, .. } => strings_view(after@),
        UnitKind::Socket { after, .. } => strings_view(after@),
        UnitKind::Device { after, .. } => strings_view(after@),
        UnitKind::Timer { after, .. } => strings_view(after@),
        UnitKind::Mount { after, .. } => strings_view(after@),
        UnitKind::Target { .. } => Seq::empty(),
    }
}

/// The socket units a service is activated through.
pub open spec fn kind_sockets(k: UnitKind) -> Seq<Seq<char>> {
    match k {
        UnitKind::Service { sockets, .. } => strings_view(sockets@),
        _ => Seq::empty(),
    }
}

pub open spec fn is_target(k: UnitKind) -> bool {
    k is Target
}

pub open spec fn is_service(k: UnitKind) -> bool {
    k is Service
}

/// Units that are started in boot waves: services, sockets, devices and mounts.
pub open spec fn is_bootable(k: UnitKind) -> bool {
    k is Service || k is Socket || k is Device || k is Mount
}

/// The position of the unit named `name`, if there is one.
pub open spec fn lookup(units: Seq<Unit>, name: Seq<char>) -> Option<int> {
    if exists|i: int| 0 <= i < units.len() && (#[trigger] units[i]).name@ == name {
        Some(choose|i: int| 0 <= i < units.len() && (#[trigger] units[i]).name@ == name)
    } else {
        None
    }
}

/// The unit that claimed the virtual name `name`, if one did.
pub open spec fn provider(prov: Seq<(String, UnitKey)>, name: Seq<char>) -> Option<int> {
    if exists|i: int| 0 <= i < prov.len() && (#[trigger] prov[i]).0@ == name {
        Some(prov[choose|i: int| 0 <= i < prov.len() && (#[trigger] prov[i]).0@ == name].1 as int)
    } else {
        None
    }
}

/// No two units share a name.
pub open spec fn names_unique(units: Seq<Unit>) -> bool {
    forall|i: int, j: int|
        0 <= i < units.len() && 0 <= j < units.len() && i != j ==> (#[trigger] units[i]).name@
            != (#[trigger] units[j]).name@
}

/// No virtual name is claimed twice, and each claim names a unit.
pub open spec fn provides_wf(prov: Seq<(String, UnitKey)>, n: nat) -> bool {
    &&& forall|i: int, j: int|
        0 <= i < prov.len() && 0 <= j < prov.len() && i != j ==> (#[trigger] prov[i]).0@
            != (#[trigger] prov[j]).0@
    &&& forall|i: int| 0 <= i < prov.len() ==> (#[trigger] prov[i]).1 < n
}

/// The unit a fresh registration adds.
pub open spec fn fresh_unit(name: Seq<char>, kind: UnitKind, u: Unit) -> bool {
    &&& u.name@ == name
    &&& u.kind == kind
    &&& u.state == UnitState::Dead
    &&& u.dependencies@.len() == 0
    &&& u.last_exit is None
}

/// The virtual-name table after `key` claims `names`, the first claim of a name winning.
pub open spec fn add_provides(prov: Seq<(String, UnitKey)>, names: Seq<String>, key: UnitKey) -> Seq<(String, UnitKey)>
    decreases names.len(),
{
    if names.len() == 0 {
        prov
    } else {
        let before = add_provides(prov, names.drop_last(), key);
        if provider(before, names.last()@) is Some {
            before
        } else {
            before.push((names.last(), key))
        }
    }
}

/// The unit a service manifest registers as.
pub open spec fn service_kind(m: ServiceManifest) -> UnitKind {
    UnitKind::Service {
        exec_path: m.exec_path,
        args: m.args,
        after: m.after,
        requires: m.requires,
        wants: m.wants,
        sockets: m.sockets,
        restart: m.restart,
        cgroup: m.cgroup,
        service_type: m.service_type,
        environment: m.environment,
        exec_start_pre: m.exec_start_pre,
        bus_name: m.bus_name,
        sandbox: m.sandbox,
        user: m.user,
        group: m.group,
        working_directory: m.working_directory,
        runlevels: m.runlevels,
        timeout_secs: m.timeout_secs,
        pidfile: m.pidfile,
        pid: None,
        watchdog_usec: m.watchdog_usec,
        last_watchdog: None,
        stop_cmd: m.stop_cmd,
        stop_signal: m.stop_signal,
        reload_cmd: m.reload_cmd,
        reload_signal: m.reload_signal,
    }
}

/// `new` is `old` after registering `kind` under `name` at `key`: a fresh unit is
/// appended, unless a unit of that name exists, which is then kept as it was.
pub open spec fn inserted(old: Seq<Unit>, new: Seq<Unit>, name: Seq<char>, kind: UnitKind, key: int) -> bool {
    match lookup(old, name) {
        Some(k) => key == k && new == old,
        None => {
            &&& key == old.len()
            &&& new.len() == old.len() + 1
            &&& new.drop_last() == old
            &&& fresh_unit(name, kind, new.last())
        },
    }
}

/// `m` is the manifest of a plain service: `ServiceManifest::new(name, program)` with
/// the listed fields filled in and nothing else configured.
pub open spec fn plain_manifest(
    m: ServiceManifest,
    name: Seq<char>,
    program: Seq<char>,
    args: Vec<String>,
    after: Vec<String>,
    needs: Vec<String>,
    wants: Vec<String>,
    sockets: Vec<String>,
    restart: RestartPolicy,
    cgroup: ServiceLimits,
) -> bool {
    &&& m.name@ == name
    &&& m.exec_path@ == program
    &&& m.args@ == args@
    &&& m.after@ == after@
    &&& m.requires@ == needs@
    &&& m.wants@ == wants@
    &&& m.sockets@ == sockets@
    &&& m.restart == restart
    &&& m.cgroup == cgroup
    &&& m.service_type == ServiceType::Simple
    &&& m.environment@.len() == 0
    &&& m.exec_start_pre is None
    &&& m.bus_name is None
    &&& !m.sandbox.private_tmp && !m.sandbox.protect_system && !m.sandbox.private_devices
        && !m.sandbox.no_new_privileges
    &&& m.user is None
    &&& m.group is None
    &&& m.working_directory is None
    &&& m.runlevels@.len() == 0
    &&& m.timeout_secs is None
    &&& m.pidfile is None
    &&& m.provides@.len() == 0
    &&& m.stop_cmd is None
    &&& m.stop_signal is None
    &&& m.reload_cmd is None
    &&& m.reload_signal is None
    &&& m.watchdog_usec is None
}

/// A unit's kind with its `after` list blanked out: two kinds that agree here differ
/// at most in their ordering names.
pub open spec fn without_after(k: UnitKind) -> UnitKind {
    match k {
        UnitKind::Service { exec_path, args, requires: reqs, wants, sockets, restart, cgroup, service_type, environment, exec_start_pre, bus_name, sandbox, user, group, working_directory, runlevels, timeout_secs, pidfile, pid, watchdog_usec, last_watchdog, stop_cmd, stop_signal, reload_cmd, reload_signal, .. } => UnitKind::Service { exec_path, args, after: arbitrary(), requires: reqs, wants, sockets, restart, cgroup, service_type, environment, exec_start_pre, bus_name, sandbox, user, group, working_directory, runlevels, timeout_secs, pidfile, pid, watchdog_usec, last_watchdog, stop_cmd, stop_signal, reload_cmd, reload_signal },
        UnitKind::Socket { listen, service, activation, .. } => UnitKind::Socket { listen, service, after: arbitrary(), activation },
        UnitKind::Timer { unit, on_boot_usec, fired, .. } => UnitKind::Timer { unit, after: arbitrary(), on_boot_usec, fired },
        UnitKind::Mount { what, where_, fstype, options, mounted, .. } => UnitKind::Mount { what, where_, fstype, options, after: arbitrary(), mounted },
        UnitKind::Device { path, service, activated, .. } => UnitKind::Device { path, service, after: arbitrary(), activated },
        UnitKind::Target { .. } => k,
    }
}

/// `new` is `old` with `first` ordered ahead of it: appended to its `after` list
/// unless already there; a target has no ordering and is left alone.
pub open spec fn ordering_prepended(old: UnitKind, new: UnitKind, first: Seq<char>) -> bool {
    &&& without_after(new) == without_after(old)
    &&& if old is Target {
        new == old
    } else if kind_after(old).contains(first) {
        kind_after(new) == kind_after(old)
    } else {
        kind_after(new) == kind_after(old).push(first)
    }
}

/// The unit `name` resolves to: a unit of that name, else the unit that claimed it.
pub open spec fn resolve_in(units: Seq<Unit>, prov: Seq<(String, UnitKey)>, name: Seq<char>) -> Option<int> {
    match lookup(units, name) {
        Some(i) => Some(i),
        None => provider(prov, name),
    }
}

/// The units `names` resolve to, in order; a name that resolves to nothing is skipped.
pub open spec fn resolve_all(units: Seq<Unit>, prov: Seq<(String, UnitKey)>, names: Seq<Seq<char>>) -> Seq<usize>
    decreases names.len(),
{
    if names.len() == 0 {
        Seq::empty()
    } else {
        let r = resolve_all(units, prov, names.drop_last());
        match resolve_in(units, prov, names.last()) {
            Some(k) => r.push(k as usize),
            None => r,
        }
    }
}

/// The units named `names`, in order, by unit name alone; unknown names are skipped.
pub open spec fn lookup_all(units: Seq<Unit>, names: Seq<Seq<char>>) -> Seq<usize>
    decreases names.len(),
{
    if names.len() == 0 {
        Seq::empty()
    } else {
        let r = lookup_all(units, names.drop_last());
        match lookup(units, names.last()) {
            Some(k) => r.push(k as usize),
            None => r,
        }
    }
}

/// What each unit pulls into a target's closure: its hard then its soft dependencies.
pub open spec fn pull_graph(units: Seq<Unit>, prov: Seq<(String, UnitKey)>) -> Seq<Seq<usize>> {
    Seq::new(
        units.len(),
        |a: int| resolve_all(units, prov, kind_requires(units[a].kind)) + resolve_all(units, prov, kind_wants(units[a].kind)),
    )
}

/// The socket units each service brings along.
pub open spec fn socket_graph(units: Seq<Unit>) -> Seq<Seq<usize>> {
    Seq::new(units.len(), |a: int| lookup_all(units, kind_sockets(units[a].kind)))
}

/// The units each unit requires, by unit name.
pub open spec fn requires_graph(units: Seq<Unit>) -> Seq<Seq<usize>> {
    Seq::new(units.len(), |a: int| lookup_all(units, kind_requires(units[a].kind)))
}

/// Unit `a` requires a name that resolves to nothing.
pub open spec fn missing_required(units: Seq<Unit>, prov: Seq<(String, UnitKey)>, a: int) -> bool {
    exists|i: int|
        0 <= i < kind_requires(units[a].kind).len() && resolve_in(units, prov, #[trigger] kind_requires(units[a].kind)[i]) is None
}

pub proof fn lemma_resolve_all_bounded(units: Seq<Unit>, prov: Seq<(String, UnitKey)>, names: Seq<Seq<char>>)
    requires
        provides_wf(prov, units.len()),
        units.len() <= usize::MAX,
    ensures
        forall|i: int| 0 <= i < resolve_all(units, prov, names).len() ==> #[trigger] resolve_all(units, prov, names)[i] < units.len(),
    decreases names.len(),
{
    if names.len() > 0 {
        let r = resolve_all(units, prov, names.drop_last());
        lemma_resolve_all_bounded(units, prov, names.drop_last());
        let x = names.last();
        match resolve_in(units, prov, x) {
            Some(k) => {
                if lookup(units, x) is None {
                    let i = choose|i: int| 0 <= i < prov.len() && (#[trigger] prov[i]).0@ == x;
                    assert(prov[i].1 < units.len());
                }
                assert(0 <= k < units.len());
                assert forall|i: int| 0 <= i < r.push(k as usize).len() implies #[trigger] r.push(k as usize)[i] < units.len() by {
                    if i < r.len() {
                        assert(r.push(k as usize)[i] == r[i]);
                    }
                }
            },
            None => {},
        }
    }
}

pub proof fn lemma_lookup_all_bounded(units: Seq<Unit>, names: Seq<Seq<char>>)
    requires
        units.len() <= usize::MAX,
    ensures
        forall|i: int| 0 <= i < lookup_all(units, names).len() ==> #[trigger] lookup_all(units, names)[i] < units.len(),
    decreases names.len(),
{
    if names.len() > 0 {
        let r = lookup_all(units, names.drop_last());
        lemma_lookup_all_bounded(units, names.drop_last());
        match lookup(units, names.last()) {
            Some(k) => {
                assert(0 <= k < units.len());
                assert forall|i: int| 0 <= i < r.push(k as usize).len() implies #[trigger] r.push(k as usize)[i] < units.len() by {
                    if i < r.len() {
                        assert(r.push(k as usize)[i] == r[i]);
                    }
                }
            },
            None => {},
        }
    }
}

/// A name among `names` that resolves to a unit gives that unit among the units
/// `names` resolve to.
pub proof fn lemma_resolve_all_contains(units: Seq<Unit>, prov: Seq<(String, UnitKey)>, names: Seq<Seq<char>>, name: Seq<char>)
    requires
        names.contains(name),
        resolve_in(units, prov, name) is Some,
    ensures
        resolve_all(units, prov, names).contains(resolve_in(units, prov, name)->0 as usize),
    decreases names.len(),
{
    let d = resolve_in(units, prov, name)->0;
    let r = resolve_all(units, prov, names.drop_last());
    if names.last() == name {
        assert(r.push(d as usize)[r.len() as int] == d as usize);
    } else {
        let i = choose|i: int| 0 <= i < names.len() && names[i] == name;
        assert(names.drop_last()[i] == name);
        lemma_resolve_all_contains(units, prov, names.drop_last(), name);
        let j = choose|j: int| 0 <= j < r.len() && r[j] == d as usize;
        match resolve_in(units, prov, names.last()) {
            Some(e) => {
                assert(r.push(e as usize)[j] == d as usize);
            },
            None => {},
        }
    }
}

/// A unit pulled into the closure of `t` pulls in each unit that a name it requires
/// or wants resolves to.
pub proof fn lemma_pulled_step(units: Seq<Unit>, prov: Seq<(String, UnitKey)>, t: int, k: int, name: Seq<char>)
    requires
        units.len() <= usize::MAX,
        0 <= k < units.len(),
        reachable(pull_graph(units, prov), set![t], k),
        kind_requires(units[k].kind).contains(name) || kind_wants(units[k].kind).contains(name),
        resolve_in(units, prov, name) is Some,
    ensures
        reachable(pull_graph(units, prov), set![t], resolve_in(units, prov, name)->0),
{
    let g = pull_graph(units, prov);
    let j = resolve_in(units, prov, name)->0;
    let a = resolve_all(units, prov, kind_requires(units[k].kind));
    let b = resolve_all(units, prov, kind_wants(units[k].kind));
    assert(g[k] == a + b);
    assert(j as usize as int == j);
    if kind_requires(units[k].kind).contains(name) {
        lemma_resolve_all_contains(units, prov, kind_requires(units[k].kind), name);
        let i = choose|i: int| 0 <= i < a.len() && a[i] == j as usize;
        assert((a + b)[i] == a[i]);
    } else {
        lemma_resolve_all_contains(units, prov, kind_wants(units[k].kind), name);
        let i = choose|i: int| 0 <= i < b.len() && b[i] == j as usize;
        assert((a + b)[a.len() + i] == b[i]);
    }
    assert(edge(g, k, j));
    lemma_path_step(g, set![t], k, j);
}

/// A target's closure follows what a service wants, not only what a target wants:
/// when a service is pulled into the closure of target `t` (reached from it over
/// what units require and want), every name in its `wants` list that resolves to a
/// unit pulls that unit in too, and that unit is active once the runlevel filter
/// keeps it.
pub proof fn law_closure_follows_service_wants(
    units: Seq<Unit>,
    prov: Seq<(String, UnitKey)>,
    t: int,
    db: RcDatabase,
    runlevel: Seq<char>,
    k: int,
    name: Seq<char>,
)
    requires
        units.len() <= usize::MAX,
        0 <= k < units.len(),
        reachable(pull_graph(units, prov), set![t], k),
        units[k].kind matches UnitKind::Service { wants, .. } && strings_view(wants@).contains(name),
        resolve_in(units, prov, name) is Some,
    ensures
        reachable(pull_graph(units, prov), set![t], resolve_in(units, prov, name)->0),
        runlevel_keeps(db, units[resolve_in(units, prov, name)->0], runlevel)
            ==> closure_of(units, prov, t, db, runlevel, resolve_in(units, prov, name)->0),
{
    let j = resolve_in(units, prov, name)->0;
    lemma_pulled_step(units, prov, t, k, name);
    let pulled = reach_set(pull_graph(units, prov), set![t]);
    assert(pulled.contains(j));
    lemma_start_reachable(socket_graph(units), pulled, j);
}

/// The closure of target `t` holds the target and is closed under hard and soft
/// dependencies: a name that a pulled-in service or target requires, that a
/// pulled-in target wants, or that a pulled-in socket or device names as its
/// service, pulls in the unit it resolves to, and that unit is active once the
/// runlevel filter keeps it.
pub proof fn law_closure_follows_dependencies(
    units: Seq<Unit>,
    prov: Seq<(String, UnitKey)>,
    t: int,
    db: RcDatabase,
    runlevel: Seq<char>,
    k: int,
    name: Seq<char>,
)
    requires
        units.len() <= usize::MAX,
        0 <= k < units.len(),
        reachable(pull_graph(units, prov), set![t], k),
        (units[k].kind matches UnitKind::Service { requires: r, .. } && strings_view(r@).contains(name))
            || (units[k].kind matches UnitKind::Target { requires: r, .. } && strings_view(r@).contains(name))
            || (units[k].kind matches UnitKind::Target { wants: w, .. } && strings_view(w@).contains(name))
            || (units[k].kind matches UnitKind::Socket { service: Some(x), .. } && x@ == name)
            || (units[k].kind matches UnitKind::Device { service: x, .. } && x@ == name),
        resolve_in(units, prov, name) is Some,
    ensures
        reachable(pull_graph(units, prov), set![t], t),
        reachable(pull_graph(units, prov), set![t], resolve_in(units, prov, name)->0),
        runlevel_keeps(db, units[resolve_in(units, prov, name)->0], runlevel)
            ==> closure_of(units, prov, t, db, runlevel, resolve_in(units, prov, name)->0),
{
    let j = resolve_in(units, prov, name)->0;
    lemma_start_reachable(pull_graph(units, prov), set![t], t);
    if units[k].kind is Socket || units[k].kind is Device {
        assert(kind_requires(units[k].kind)[0] == name || kind_wants(units[k].kind)[0] == name);
    }
    lemma_pulled_step(units, prov, t, k, name);
    let pulled = reach_set(pull_graph(units, prov), set![t]);
    assert(pulled.contains(j));
    lemma_start_reachable(socket_graph(units), pulled, j);
}

/// A name among `names` that is a unit's name gives that unit among the units
/// `names` name.
pub proof fn lemma_lookup_all_contains(units: Seq<Unit>, names: Seq<Seq<char>>, name: Seq<char>)
    requires
        names.contains(name),
        lookup(units, name) is Some,
    ensures
        lookup_all(units, names).contains(lookup(units, name)->0 as usize),
    decreases names.len(),
{
    let d = lookup(units, name)->0;
    let r = lookup_all(units, names.drop_last());
    if names.last() == name {
        assert(r.push(d as usize)[r.len() as int] == d as usize);
    } else {
        let i = choose|i: int| 0 <= i < names.len() && names[i] == name;
        assert(names.drop_last()[i] == name);
        lemma_lookup_all_contains(units, names.drop_last(), name);
        let j = choose|j: int| 0 <= j < r.len() && r[j] == d as usize;
        match lookup(units, names.last()) {
            Some(e) => {
                assert(r.push(e as usize)[j] == d as usize);
            },
            None => {},
        }
    }
}

/// A service pulled into the closure of target `t` brings its sockets along: each
/// name in its `sockets` list that is a unit's name makes that unit active once the
/// runlevel filter keeps it.
pub proof fn law_closure_brings_sockets(
    units: Seq<Unit>,
    prov: Seq<(String, UnitKey)>,
    t: int,
    db: RcDatabase,
    runlevel: Seq<char>,
    k: int,
    name: Seq<char>,
)
    requires
        units.len() <= usize::MAX,
        0 <= k < units.len(),
        reachable(pull_graph(units, prov), set![t], k),
        units[k].kind matches UnitKind::Service { sockets, .. } && strings_view(sockets@).contains(name),
        lookup(units, name) is Some,
    ensures
        runlevel_keeps(db, units[lookup(units, name)->0], runlevel)
            ==> closure_of(units, prov, t, db, runlevel, lookup(units, name)->0),
{
    let g = socket_graph(units);
    let j = lookup(units, name)->0;
    let pulled = reach_set(pull_graph(units, prov), set![t]);
    lemma_lookup_all_contains(units, kind_sockets(units[k].kind), name);
    let l = lookup_all(units, kind_sockets(units[k].kind));
    let i = choose|i: int| 0 <= i < l.len() && l[i] == j as usize;
    assert(g[k] == l);
    assert(j as usize as int == j);
    assert(g[k][i] as int == j);
    assert(edge(g, k, j));
    assert(pulled.contains(k));
    lemma_start_reachable(g, pulled, k);
    lemma_path_step(g, pulled, k, j);
}

/// The three relations the boot closure is computed over.
pub enum Relation {
    /// What a unit pulls into a target's closure.
    Pull,
    /// The sockets a service brings along.
    Sockets,
    /// What a unit requires, by unit name.
    Requires,
}

pub open spec fn relation_graph(rel: Relation, units: Seq<Unit>, prov: Seq<(String, UnitKey)>) -> Seq<Seq<usize>> {
    match rel {
        Relation::Pull => pull_graph(units, prov),
        Relation::Sockets => socket_graph(units),
        Relation::Requires => requires_graph(units),
    }
}

/// The set of units reachable from `start` over `g`.
pub open spec fn reach_set(g: Seq<Seq<usize>>, start: Set<int>) -> Set<int> {
    Set::new(|k: int| reachable(g, start, k))
}

/// A service is kept by the runlevel filter: with a seeded database it must be
/// enabled at `runlevel`; other units are always kept.
pub open spec fn runlevel_keeps(db: RcDatabase, u: Unit, runlevel: Seq<char>) -> bool {
    match u.kind {
        UnitKind::Service { runlevels, .. } => !db.seeded || db.enabled(u.name@, runlevel, strings_view(runlevels@)),
        _ => true,
    }
}

/// The active set a target closure yields: what the target pulls in, with the
/// sockets its services bring along, filtered by runlevel.
pub open spec fn closure_of(units: Seq<Unit>, prov: Seq<(String, UnitKey)>, t: int, db: RcDatabase, runlevel: Seq<char>, k: int) -> bool {
    &&& reach_set(socket_graph(units), reach_set(pull_graph(units, prov), set![t])).contains(k)
    &&& runlevel_keeps(db, units[k], runlevel)
}

/// The ordering names of a service: its `after` names, then each required name not
/// listed yet.
pub open spec fn ordering_names(after: Seq<Seq<char>>, reqs: Seq<Seq<char>>) -> Seq<Seq<char>>
    decreases reqs.len(),
{
    if reqs.len() == 0 {
        after
    } else {
        let o = ordering_names(after, reqs.drop_last());
        if o.contains(reqs.last()) {
            o
        } else {
            o.push(reqs.last())
        }
    }
}

/// The names a unit is ordered after: a service also after what it requires.
pub open spec fn unit_ordering(k: UnitKind) -> Seq<Seq<char>> {
    match k {
        UnitKind::Service { after, requires: reqs, .. } => ordering_names(strings_view(after@), strings_view(reqs@)),
        _ => kind_after(k),
    }
}

/// The units `names` order a unit after: those that resolve to an active unit
/// other than a target, in order.
pub open spec fn order_deps(units: Seq<Unit>, prov: Seq<(String, UnitKey)>, active: Seq<bool>, names: Seq<Seq<char>>) -> Seq<usize>
    decreases names.len(),
{
    if names.len() == 0 {
        Seq::empty()
    } else {
        let r = order_deps(units, prov, active, names.drop_last());
        match resolve_in(units, prov, names.last()) {
            Some(d) => if active[d] && !(units[d].kind is Target) {
                r.push(d as usize)
            } else {
                r
            },
            None => r,
        }
    }
}

/// Unit `k` is ordered after a name that resolves to nothing.
pub open spec fn missing_ordering(units: Seq<Unit>, prov: Seq<(String, UnitKey)>, k: int) -> bool {
    exists|i: int|
        0 <= i < unit_ordering(units[k].kind).len() && resolve_in(units, prov, #[trigger] unit_ordering(units[k].kind)[i]) is None
}

/// Unit `k` takes part in ordering: it is active and not a target.
pub open spec fn orders(units: Seq<Unit>, active: Seq<bool>, k: int) -> bool {
    active[k] && !(units[k].kind is Target)
}

/// Unit `k` is started in boot waves: it is active and a service, socket, device or mount.
pub open spec fn bootable_at(units: Seq<Unit>, active: Seq<bool>, k: int) -> bool {
    0 <= k < units.len() && active[k] && is_bootable(units[k].kind)
}

/// Unit `k` is in one of the first `upto` waves.
pub open spec fn placed(waves: Seq<Seq<usize>>, upto: int, k: int) -> bool {
    exists|j: int, i: int| 0 <= j < upto && 0 <= i < waves[j].len() && #[trigger] waves[j][i] as int == k
}

/// Every dependency of unit `k` is in one of the first `upto` waves.
pub open spec fn deps_placed(units: Seq<Unit>, waves: Seq<Seq<usize>>, upto: int, k: int) -> bool {
    forall|d: int| 0 <= d < units[k].dependencies@.len() ==> placed(waves, upto, #[trigger] units[k].dependencies@[d] as int)
}

/// Unit `k` can start once the first `upto` waves have: it is bootable, not started
/// yet, and everything it depends on has started.
pub open spec fn ready(units: Seq<Unit>, active: Seq<bool>, waves: Seq<Seq<usize>>, upto: int, k: int) -> bool {
    &&& bootable_at(units, active, k)
    &&& !placed(waves, upto, k)
    &&& deps_placed(units, waves, upto, k)
}

/// The unit at `i` in `w` sorts before the one after it.
pub open spec fn name_ordered(units: Seq<Unit>, w: Seq<usize>, i: int) -> bool {
    seq_lt(units[w[i] as int].name@, units[w[i + 1] as int].name@)
}

/// The units of `w` in increasing order of name, none twice.
pub open spec fn sorted_by_name(units: Seq<Unit>, w: Seq<usize>) -> bool {
    &&& forall|i: int| 0 <= i < w.len() - 1 ==> #[trigger] name_ordered(units, w, i)
    &&& forall|a: int, b: int| 0 <= a < w.len() && 0 <= b < w.len() && a != b ==> #[trigger] w[a] != #[trigger] w[b]
}

/// Wave `i` holds exactly the units ready after the waves before it, sorted by name.
pub open spec fn is_wave(units: Seq<Unit>, active: Seq<bool>, waves: Seq<Seq<usize>>, i: int) -> bool {
    &&& waves[i].len() > 0
    &&& forall|k: int| (exists|x: int| 0 <= x < waves[i].len() && #[trigger] waves[i][x] as int == k)
        <==> ready(units, active, waves, i, k)
    &&& sorted_by_name(units, waves[i])
}

/// `waves` are the successive waves, and after the last no unit is ready.
pub open spec fn leveled(units: Seq<Unit>, active: Seq<bool>, waves: Seq<Seq<usize>>) -> bool {
    &&& forall|i: int| 0 <= i < waves.len() ==> #[trigger] is_wave(units, active, waves, i)
    &&& forall|k: int| !#[trigger] ready(units, active, waves, waves.len() as int, k)
}

/// Every bootable unit is in some wave.
pub open spec fn complete(units: Seq<Unit>, active: Seq<bool>, waves: Seq<Seq<usize>>) -> bool {
    forall|k: int| #[trigger] bootable_at(units, active, k) ==> placed(waves, waves.len() as int, k)
}

/// The waves as sequences.
pub open spec fn waves_view(w: Seq<Vec<usize>>) -> Seq<Seq<usize>> {
    w.map_values(|v: Vec<usize>| v@)
}

/// Two wave lists that agree on their first `upto` waves have placed the same units there.
pub proof fn lemma_placed_prefix(w1: Seq<Seq<usize>>, w2: Seq<Seq<usize>>, upto: int)
    requires
        0 <= upto <= w1.len(),
        upto <= w2.len(),
        forall|j: int| 0 <= j < upto ==> #[trigger] w1[j] == w2[j],
    ensures
        forall|k: int| #[trigger] placed(w1, upto, k) == placed(w2, upto, k),
{
    assert forall|k: int| #[trigger] placed(w1, upto, k) implies placed(w2, upto, k) by {
        let (j, i) = choose|j: int, i: int| 0 <= j < upto && 0 <= i < w1[j].len() && #[trigger] w1[j][i] as int == k;
        assert(w2[j][i] as int == k);
    }
    assert forall|k: int| #[trigger] placed(w2, upto, k) implies placed(w1, upto, k) by {
        let (j, i) = choose|j: int, i: int| 0 <= j < upto && 0 <= i < w2[j].len() && #[trigger] w2[j][i] as int == k;
        assert(w1[j][i] as int == k);
    }
}

/// A wave stays a wave when later waves are added.
pub proof fn lemma_wave_prefix(units: Seq<Unit>, active: Seq<bool>, w1: Seq<Seq<usize>>, w2: Seq<Seq<usize>>, i: int)
    requires
        0 <= i < w1.len(),
        i < w2.len(),
        forall|j: int| 0 <= j <= i ==> #[trigger] w1[j] == w2[j],
        is_wave(units, active, w1, i),
    ensures
        is_wave(units, active, w2, i),
{
    lemma_placed_prefix(w1, w2, i);
    assert forall|k: int| ready(units, active, w1, i, k) == ready(units, active, w2, i, k) by {
        if deps_placed(units, w1, i, k) {
            assert forall|d: int| 0 <= d < units[k].dependencies@.len() implies placed(w2, i, #[trigger] units[k].dependencies@[d] as int) by {
                assert(placed(w1, i, units[k].dependencies@[d] as int));
            }
        }
        if deps_placed(units, w2, i, k) {
            assert forall|d: int| 0 <= d < units[k].dependencies@.len() implies placed(w1, i, #[trigger] units[k].dependencies@[d] as int) by {
                assert(placed(w2, i, units[k].dependencies@[d] as int));
            }
        }
    }
    assert(w1[i] == w2[i]);
}

/// The label `forgectl status` gives a kind.
pub open spec fn kind_name(k: UnitKind) -> Seq<char> {
    match k {
        UnitKind::Service { .. } => "service"@,
        UnitKind::Socket { .. } => "socket"@,
        UnitKind::Target { .. } => "target"@,
        UnitKind::Device { .. } => "device"@,
        UnitKind::Timer { .. } => "timer"@,
        UnitKind::Mount { .. } => "mount"@,
    }
}

/// The name of a state, as `Debug` prints it.
pub open spec fn state_name(s: UnitState) -> Seq<char> {
    match s {
        UnitState::Dead => "Dead"@,
        UnitState::Starting => "Starting"@,
        UnitState::Listening => "Listening"@,
        UnitState::Running => "Running"@,
        UnitState::Failed => "Failed"@,
        UnitState::Stopping => "Stopping"@,
    }
}

/// The state D-Bus clients are told.
pub open spec fn dbus_state(s: UnitState) -> Seq<char> {
    match s {
        UnitState::Running | UnitState::Listening => "active"@,
        UnitState::Failed => "failed"@,
        UnitState::Starting => "activating"@,
        _ => "inactive"@,
    }
}

/// A status line as plain values.
pub open spec fn status_view(s: ServiceStatus) -> (Seq<char>, Seq<char>, Seq<char>, Option<u32>) {
    (s.name@, s.kind@, s.state@, s.pid)
}

/// The pid a unit's status shows: a service's own, nothing for other kinds.
pub open spec fn kind_pid(k: UnitKind) -> Option<u32> {
    match k {
        UnitKind::Service { pid, .. } => pid,
        _ => None,
    }
}

/// The status lines of the active units among `units`, in order.
pub open spec fn snapshot(units: Seq<Unit>, active: Seq<bool>) -> Seq<(Seq<char>, Seq<char>, Seq<char>, Option<u32>)>
    decreases units.len(),
{
    if units.len() == 0 {
        Seq::empty()
    } else {
        let r = snapshot(units.drop_last(), active);
        let k = units.len() - 1;
        if active[k] {
            r.push((units.last().name@, kind_name(units.last().kind), state_name(units.last().state), kind_pid(units.last().kind)))
        } else {
            r
        }
    }
}

/// The services among `keys`, in order.
pub open spec fn services_in(units: Seq<Unit>, keys: Seq<usize>) -> Seq<usize>
    decreases keys.len(),
{
    if keys.len() == 0 {
        Seq::empty()
    } else {
        let r = services_in(units, keys.drop_last());
        if keys.last() < units.len() && units[keys.last() as int].kind is Service {
            r.push(keys.last())
        } else {
            r
        }
    }
}

/// The services of the waves `w`, last wave first.
pub open spec fn stop_sequence(units: Seq<Unit>, w: Seq<Seq<usize>>) -> Seq<usize>
    decreases w.len(),
{
    if w.len() == 0 {
        Seq::empty()
    } else {
        stop_sequence(units, w.drop_first()) + services_in(units, w[0])
    }
}

/// The label of a kind.
fn kind_label(k: &UnitKind) -> (r: String)
    ensures
        r@ == kind_name(*k),
{
    proof {
        reveal_strlit("service");
        reveal_strlit("socket");
        reveal_strlit("target");
        reveal_strlit("device");
        reveal_strlit("timer");
        reveal_strlit("mount");
    }
    match k {
        UnitKind::Service { .. } => "service".to_string(),
        UnitKind::Socket { .. } => "socket".to_string(),
        UnitKind::Target { .. } => "target".to_string(),
        UnitKind::Device { .. } => "device".to_string(),
        UnitKind::Timer { .. } => "timer".to_string(),
        UnitKind::Mount { .. } => "mount".to_string(),
    }
}

/// The name of a state.
fn state_label(s: UnitState) -> (r: String)
    ensures
        r@ == state_name(s),
{
    match s {
        UnitState::Dead => "Dead".to_string(),
        UnitState::Starting => "Starting".to_string(),
        UnitState::Listening => "Listening".to_string(),
        UnitState::Running => "Running".to_string(),
        UnitState::Failed => "Failed".to_string(),
        UnitState::Stopping => "Stopping".to_string(),
    }
}

/// The D-Bus state of a state.
fn dbus_state_label(s: UnitState) -> (r: String)
    ensures
        r@ == dbus_state(s),
{
    match s {
        UnitState::Running | UnitState::Listening => "active".to_string(),
        UnitState::Failed => "failed".to_string(),
        UnitState::Starting => "activating".to_string(),
        _ => "inactive".to_string(),
    }
}

/// A service's kind with its pid set to `pid`; other kinds are left alone.
pub open spec fn with_pid(k: UnitKind, new_pid: Option<u32>) -> UnitKind {
    match k {
        UnitKind::Service { exec_path, args, after, requires: reqs, wants, sockets, restart, cgroup, service_type, environment, exec_start_pre, bus_name, sandbox, user, group, working_directory, runlevels, timeout_secs, pidfile, watchdog_usec, last_watchdog, stop_cmd, stop_signal, reload_cmd, reload_signal, .. } => UnitKind::Service { exec_path, args, after, requires: reqs, wants, sockets, restart, cgroup, service_type, environment, exec_start_pre, bus_name, sandbox, user, group, working_directory, runlevels, timeout_secs, pidfile, pid: new_pid, watchdog_usec, last_watchdog, stop_cmd, stop_signal, reload_cmd, reload_signal },
        _ => k,
    }
}

/// A service's kind with its watchdog fields set; other kinds are left alone.
pub open spec fn with_watchdog(k: UnitKind, usec: Option<u64>, last: Option<u64>) -> UnitKind {
    match k {
        UnitKind::Service { exec_path, args, after, requires: reqs, wants, sockets, restart, cgroup, service_type, environment, exec_start_pre, bus_name, sandbox, user, group, working_directory, runlevels, timeout_secs, pidfile, pid, stop_cmd, stop_signal, reload_cmd, reload_signal, .. } => UnitKind::Service { exec_path, args, after, requires: reqs, wants, sockets, restart, cgroup, service_type, environment, exec_start_pre, bus_name, sandbox, user, group, working_directory, runlevels, timeout_secs, pidfile, pid, watchdog_usec: usec, last_watchdog: last, stop_cmd, stop_signal, reload_cmd, reload_signal },
        _ => k,
    }
}

/// `after` is `before` once the child `pid` it tracks exited with `status`: the pid
/// is forgotten, its unit records the status and is `Failed` or `Dead`, and the
/// unit is queued for a restart when its policy asks for one and the manager is not
/// shutting down.
pub open spec fn exit_recorded(before: ForgeState, after: ForgeState, pid: u32, status: i32) -> bool {
    let k = before.pids()[pid];
    let u = before.units()[k as int];
    &&& after.pids() == before.pids().remove(pid)
    &&& after.units() == before.units().update(k as int, Unit {
        state: if exit_failed(status) { UnitState::Failed } else { UnitState::Dead },
        kind: with_pid(u.kind, None),
        last_exit: Some(status),
        ..u
    })
    &&& after.restarts() == if !before.shutting() && wants_restart(u.kind, exit_failed(status)) {
        before.restarts().push(k)
    } else {
        before.restarts()
    }
}

/// What a child's exit queues, by the restart policy of its service, while the
/// manager is not shutting down: an `Always` service is appended to the restart
/// queue whatever the exit status, an `OnFailure` service only when the child
/// failed, and a `No` service, or a unit that is no service, never.
pub proof fn law_exit_restarts_by_policy(before: ForgeState, after: ForgeState, pid: u32, status: i32)
    requires
        before.pids().contains_key(pid),
        !before.shutting(),
        exit_recorded(before, after, pid, status),
    ensures
        before.units()[before.pids()[pid] as int].kind matches UnitKind::Service { restart, .. }
            && restart == RestartPolicy::Always ==> after.restarts() == before.restarts().push(before.pids()[pid]),
        before.units()[before.pids()[pid] as int].kind matches UnitKind::Service { restart, .. }
            && restart == RestartPolicy::OnFailure ==> after.restarts() == if exit_failed(status) {
                before.restarts().push(before.pids()[pid])
            } else {
                before.restarts()
            },
        before.units()[before.pids()[pid] as int].kind matches UnitKind::Service { restart, .. }
            && restart == RestartPolicy::No ==> after.restarts() == before.restarts(),
        !(before.units()[before.pids()[pid] as int].kind is Service) ==> after.restarts() == before.restarts(),
{
}

/// What a child's exit records, whatever the restart policy: the pid is no longer
/// tracked, its unit keeps its name, records the status and is `Failed` after a
/// failed exit and `Dead` after a clean one, and while the manager shuts down
/// nothing is queued for a restart.
pub proof fn law_exit_bookkeeping(before: ForgeState, after: ForgeState, pid: u32, status: i32)
    requires
        before.wf(),
        before.pids().contains_key(pid),
        exit_recorded(before, after, pid, status),
    ensures
        !after.pids().contains_key(pid),
        after.units().len() == before.units().len(),
        after.units()[before.pids()[pid] as int].name == before.units()[before.pids()[pid] as int].name,
        after.units()[before.pids()[pid] as int].last_exit == Some(status),
        exit_failed(status) ==> after.units()[before.pids()[pid] as int].state == UnitState::Failed,
        !exit_failed(status) ==> after.units()[before.pids()[pid] as int].state == UnitState::Dead,
        before.shutting() ==> after.restarts() == before.restarts(),
{
    before.lemma_tracked_pid(pid);
}

/// Whether a service of kind `k` is started again after it ended, `failed` or not.
pub open spec fn wants_restart(k: UnitKind, failed: bool) -> bool {
    match k {
        UnitKind::Service { restart, .. } => match restart {
            RestartPolicy::Always => true,
            RestartPolicy::OnFailure => failed,
            RestartPolicy::No => false,
        },
        _ => false,
    }
}

/// At most this many restarts of one service within the window.
pub const RESTART_BURST_MAX: usize = 5;

/// The restart window, in milliseconds.
pub const RESTART_BURST_WINDOW_MS: u64 = 60000;

/// The restart times recorded for `name`: those of the first entry of that name.
pub open spec fn history(h: Seq<(String, Vec<u64>)>, name: Seq<char>) -> Seq<u64>
    decreases h.len(),
{
    if h.len() == 0 {
        Seq::empty()
    } else if h[0].0@ == name {
        h[0].1@
    } else {
        history(h.drop_first(), name)
    }
}

/// The times of `times` that lie within the restart window before `now`.
pub open spec fn recent(times: Seq<u64>, now: u64) -> Seq<u64> {
    times.filter(|t: u64| now - t < RESTART_BURST_WINDOW_MS)
}

/// The restart histories of a state, by unit name.
pub open spec fn histories(h: Seq<(String, Vec<u64>)>) -> spec_fn(Seq<char>) -> Seq<u64> {
    |n: Seq<char>| history(h, n)
}

/// A restart of `name` is allowed at `now` under the histories `hist`.
pub open spec fn restart_ok(hist: spec_fn(Seq<char>) -> Seq<u64>, name: Seq<char>, now: u64) -> bool {
    recent(hist(name), now).len() < RESTART_BURST_MAX
}

/// The histories after asking whether `name` may restart at `now`: its times are cut to
/// the window, and `now` is added when the restart is allowed.
pub open spec fn checked(hist: spec_fn(Seq<char>) -> Seq<u64>, name: Seq<char>, now: u64) -> spec_fn(Seq<char>) -> Seq<u64> {
    |n: Seq<char>| if n == name {
        if restart_ok(hist, name, now) { recent(hist(name), now).push(now) } else { recent(hist(name), now) }
    } else {
        hist(n)
    }
}

/// Going through the restart queue `q` at `now`: each queued unit is asked in turn;
/// those held back are dropped, and the first one allowed is taken. The result: how
/// many entries were taken off the queue, the unit taken, and the histories after.
pub open spec fn restart_scan(units: Seq<Unit>, q: Seq<UnitKey>, hist: spec_fn(Seq<char>) -> Seq<u64>, now: u64)
    -> (nat, Option<UnitKey>, spec_fn(Seq<char>) -> Seq<u64>)
    decreases q.len(),
{
    if q.len() == 0 {
        (0, None, hist)
    } else {
        let name = units[q[0] as int].name@;
        if restart_ok(hist, name, now) {
            (1, Some(q[0]), checked(hist, name, now))
        } else {
            let rest = restart_scan(units, q.drop_first(), checked(hist, name, now), now);
            (rest.0 + 1, rest.1, rest.2)
        }
    }
}

/// Replacing the times of entry `i`, the first entry named `name`, changes the
/// history of `name` alone.
pub proof fn lemma_history_update(h: Seq<(String, Vec<u64>)>, i: int, v: Vec<u64>, name: Seq<char>, n: Seq<char>)
    requires
        0 <= i < h.len(),
        h[i].0@ == name,
        forall|j: int| 0 <= j < i ==> (#[trigger] h[j]).0@ != name,
    ensures
        history(h.update(i, (h[i].0, v)), n) == if n == name { v@ } else { history(h, n) },
    decreases i,
{
    let h2 = h.update(i, (h[i].0, v));
    if i == 0 {
        assert(h2.drop_first() =~= h.drop_first());
        assert(h2[0] == (h[0].0, v));
    } else {
        assert(h2[0] == h[0]);
        assert(h[0].0@ != name);
        assert(h2.drop_first() =~= h.drop_first().update(i - 1, (h[i].0, v)));
        assert forall|j: int| 0 <= j < i - 1 implies (#[trigger] h.drop_first()[j]).0@ != name by {
            assert(h.drop_first()[j] == h[j + 1]);
        }
        lemma_history_update(h.drop_first(), i - 1, v, name, n);
    }
}

/// Appending an entry for a name with no entry yet gives that name its times and
/// leaves every other history alone.
pub proof fn lemma_history_push(h: Seq<(String, Vec<u64>)>, e: (String, Vec<u64>), n: Seq<char>)
    requires
        forall|j: int| 0 <= j < h.len() ==> (#[trigger] h[j]).0@ != e.0@,
    ensures
        history(h.push(e), n) == if n == e.0@ { e.1@ } else { history(h, n) },
    decreases h.len(),
{
    if h.len() > 0 {
        assert(h.push(e)[0] == h[0]);
        assert(h[0].0@ != e.0@);
        assert(h.push(e).drop_first() =~= h.drop_first().push(e));
        assert forall|j: int| 0 <= j < h.drop_first().len() implies (#[trigger] h.drop_first()[j]).0@ != e.0@ by {
            assert(h.drop_first()[j] == h[j + 1]);
        }
        lemma_history_push(h.drop_first(), e, n);
    } else {
        assert(h.push(e)[0] == e);
        assert(h.push(e).drop_first() =~= Seq::<(String, Vec<u64>)>::empty());
        assert(h =~= Seq::<(String, Vec<u64>)>::empty());
    }
}

/// What `Path::file_name` gives for `path`.
pub uninterp spec fn file_name_of(path: Seq<char>) -> Option<Seq<char>>;

/// `Path::file_name`: the claim is only that the result is a function of the path.
#[verifier::external_body]
fn path_file_name(path: &str) -> (r: Option<String>)
    ensures
        match file_name_of(path@) {
            Some(n) => r matches Some(x) && x@ == n,
            None => r is None,
        },
{
    std::path::Path::new(path).file_name().and_then(|s| s.to_str()).map(|s| s.to_string())
}

/// The timers still to fire among the active `units`: the unit each starts and its
/// delay after boot, in microseconds.
pub open spec fn timer_jobs(units: Seq<Unit>, active: Seq<bool>) -> Seq<(Seq<char>, u64)>
    decreases units.len(),
{
    if units.len() == 0 {
        Seq::empty()
    } else {
        let r = timer_jobs(units.drop_last(), active);
        let k = units.len() - 1;
        match units.last().kind {
            UnitKind::Timer { unit, on_boot_usec, fired, .. } => if active[k] && !fired && on_boot_usec is Some {
                r.push((unit@, on_boot_usec->0))
            } else {
                r
            },
            _ => r,
        }
    }
}

/// The device units: the device's file name (`"unknown"` without one) and its service.
pub open spec fn device_list(units: Seq<Unit>) -> Seq<(Seq<char>, Seq<char>)>
    decreases units.len(),
{
    if units.len() == 0 {
        Seq::empty()
    } else {
        let r = device_list(units.drop_last());
        match units.last().kind {
            UnitKind::Device { path, service, .. } => r.push((
                match file_name_of(path@) {
                    Some(n) => n,
                    None => "unknown"@,
                },
                service@,
            )),
            _ => r,
        }
    }
}

/// The device units not activated yet: key, device path and service.
pub open spec fn pending_devices(units: Seq<Unit>) -> Seq<(usize, Seq<char>, Seq<char>)>
    decreases units.len(),
{
    if units.len() == 0 {
        Seq::empty()
    } else {
        let r = pending_devices(units.drop_last());
        match units.last().kind {
            UnitKind::Device { path, service, activated, .. } => if !activated {
                r.push(((units.len() - 1) as usize, path@, service@))
            } else {
                r
            },
            _ => r,
        }
    }
}

/// The services whose watchdog deadline passed before `now` (microseconds): a
/// running service that pinged at `last` and must ping every `usec`.
pub open spec fn overdue(units: Seq<Unit>, now: u64) -> Seq<usize>
    decreases units.len(),
{
    if units.len() == 0 {
        Seq::empty()
    } else {
        let r = overdue(units.drop_last(), now);
        match units.last().kind {
            UnitKind::Service { pid, watchdog_usec, last_watchdog, .. } => if pid is Some && watchdog_usec is Some
                && last_watchdog is Some && now > last_watchdog->0 + watchdog_usec->0 {
                r.push((units.len() - 1) as usize)
            } else {
                r
            },
            _ => r,
        }
    }
}

/// The name of the first timer that starts `service`.
pub open spec fn timer_of(units: Seq<Unit>, service: Seq<char>) -> Option<Seq<char>>
    decreases units.len(),
{
    if units.len() == 0 {
        None
    } else {
        match units[0].kind {
            UnitKind::Timer { unit, .. } => if unit@ == service {
                Some(units[0].name@)
            } else {
                timer_of(units.drop_first(), service)
            },
            _ => timer_of(units.drop_first(), service),
        }
    }
}

/// A timer's kind marked fired; other kinds are left alone.
pub open spec fn fired_kind(k: UnitKind) -> UnitKind {
    match k {
        UnitKind::Timer { unit, after, on_boot_usec, .. } => UnitKind::Timer { unit, after, on_boot_usec, fired: true },
        _ => k,
    }
}

/// A device's kind marked activated; other kinds are left alone.
pub open spec fn activated_kind(k: UnitKind) -> UnitKind {
    match k {
        UnitKind::Device { path, service, after, .. } => UnitKind::Device { path, service, after, activated: true },
        _ => k,
    }
}

/// The state of the service manager.
pub struct ForgeState {
    arena: Vec<Unit>,
    pid_index: HashMap<u32, UnitKey>,
    /// Maps virtual provider names (from `provide = [...]`) to the first unit that claimed them.
    provides_index: Vec<(String, UnitKey)>,
    active_units: Vec<bool>,
    active_target: String,
    boot_profile: BootProfileReport,
    log_dir: String,
    shutting_down: bool,
    restart_times: Vec<(String, Vec<u64>)>,
    boot_lenient: bool,
    strict_boot: bool,
    required_units: Vec<bool>,
    pending_restarts: VecDeque<UnitKey>,
    job_queue: JobQueue,
}

impl Default for ForgeState {
    /// An empty manager that boots `multi-user` and logs to `/run/forge/log`.
    fn default() -> (r: Self)
        ensures
            r.wf(),
            r.units().len() == 0,
            r.provides().len() == 0,
            r.target() == "multi-user"@,
            r.log_path() == "/run/forge/log"@,
            !r.lenient(),
            !r.strict(),
            !r.shutting(),
    {
        ForgeState::new(str_to_string("multi-user"), str_to_string("/run/forge/log"))
    }
}

impl ForgeState {
    pub closed spec fn units(&self) -> Seq<Unit> {
        self.arena@
    }

    pub closed spec fn active(&self) -> Seq<bool> {
        self.active_units@
    }

    pub closed spec fn required(&self) -> Seq<bool> {
        self.required_units@
    }

    pub closed spec fn provides(&self) -> Seq<(String, UnitKey)> {
        self.provides_index@
    }

    pub closed spec fn pids(&self) -> Map<u32, UnitKey> {
        self.pid_index@
    }

    pub closed spec fn lenient(&self) -> bool {
        self.boot_lenient
    }

    pub closed spec fn strict(&self) -> bool {
        self.strict_boot
    }

    pub closed spec fn shutting(&self) -> bool {
        self.shutting_down
    }

    pub closed spec fn restarts(&self) -> Seq<UnitKey> {
        self.pending_restarts@
    }

    pub closed spec fn restart_history(&self) -> Seq<(String, Vec<u64>)> {
        self.restart_times@
    }

    pub closed spec fn profile(&self) -> BootProfileReport {
        self.boot_profile
    }

    pub closed spec fn log_path(&self) -> Seq<char> {
        self.log_dir@
    }

    /// The job queue.
    pub closed spec fn jobs(&self) -> JobQueue {
        self.job_queue
    }

    /// The target the manager boots.
    pub closed spec fn target(&self) -> Seq<char> {
        self.active_target@
    }

    /// The unit `name` resolves to: a unit of that name, else the unit that claimed it.
    pub open spec fn resolve(&self, name: Seq<char>) -> Option<int> {
        resolve_in(self.units(), self.provides(), name)
    }

    /// The invariant every operation keeps.
    pub closed spec fn wf(&self) -> bool {
        let n = self.arena@.len();
        &&& names_unique(self.arena@)
        &&& provides_wf(self.provides_index@, n)
        &&& self.active_units@.len() == n
        &&& self.required_units@.len() == n
        &&& forall|k: int, j: int|
            0 <= k < n && 0 <= j < self.arena@[k].dependencies@.len()
                ==> #[trigger] self.arena@[k].dependencies@[j] < n
        &&& forall|p: u32| #[trigger] self.pid_index@.contains_key(p) ==> self.pid_index@[p] < n
        &&& forall|i: int| 0 <= i < self.pending_restarts@.len() ==> #[trigger] self.pending_restarts@[i] < n
    }

    /// An empty manager that will boot `active_target`, logging services to `log_dir`.
    pub fn new(active_target: String, log_dir: String) -> (r: Self)
        ensures
            r.wf(),
            r.units().len() == 0,
            r.provides().len() == 0,
            r.pids() == Map::<u32, UnitKey>::empty(),
            r.target() == active_target@,
            r.log_path() == log_dir@,
            r.profile().total_boot_ms == 0,
            r.profile().active_target@ == active_target@,
            r.profile().waves@.len() == 0,
            !r.lenient(),
            !r.strict(),
            !r.shutting(),
            r.restarts().len() == 0,
            r.restart_history().len() == 0,
    {
        let target_copy = active_target.clone();
        ForgeState {
            arena: Vec::new(),
            pid_index: HashMap::new(),
            provides_index: Vec::new(),
            active_units: Vec::new(),
            active_target,
            boot_profile: BootProfileReport {
                total_boot_ms: 0,
                active_target: target_copy,
                waves: Vec::new(),
            },
            log_dir,
            shutting_down: false,
            restart_times: Vec::new(),
            boot_lenient: false,
            strict_boot: false,
            required_units: Vec::new(),
            pending_restarts: VecDeque::new(),
            job_queue: JobQueue::new(),
        }
    }

    /// The number of units.
    pub fn len(&self) -> (r: usize)
        ensures
            r == self.units().len(),
    {
        self.arena.len()
    }

    /// Position of the unit named `name`.
    pub fn find_unit(&self, name: &str) -> (r: Option<UnitKey>)
        requires
            self.wf(),
        ensures
            match r {
                Some(k) => lookup(self.units(), name@) == Some(k as int),
                None => lookup(self.units(), name@) is None,
            },
    {
        let mut i: usize = 0;
        while i < self.arena.len()
            invariant
                self.wf(),
                i <= self.arena@.len(),
                forall|j: int| 0 <= j < i ==> (#[trigger] self.arena@[j]).name@ != name@,
            decreases self.arena@.len() - i,
        {
            if str_eq(self.arena[i].name.as_str(), name) {
                let ghost c = choose|j: int| 0 <= j < self.arena@.len() && (#[trigger] self.arena@[j]).name@ == name@;
                assert(self.arena@[i as int].name@ == name@);
                return Some(i);
            }
            i = i + 1;
        }
        None
    }

    /// Position of the unit that claimed the virtual name `name`.
    fn find_provider(&self, name: &str) -> (r: Option<UnitKey>)
        requires
            self.wf(),
        ensures
            match r {
                Some(k) => provider(self.provides(), name@) == Some(k as int) && k < self.units().len(),
                None => provider(self.provides(), name@) is None,
            },
    {
        let mut i: usize = 0;
        while i < self.provides_index.len()
            invariant
                self.wf(),
                i <= self.provides_index@.len(),
                forall|j: int| 0 <= j < i ==> (#[trigger] self.provides_index@[j]).0@ != name@,
            decreases self.provides_index@.len() - i,
        {
            if str_eq(self.provides_index[i].0.as_str(), name) {
                let ghost c = choose|j: int| 0 <= j < self.provides_index@.len() && (#[trigger] self.provides_index@[j]).0@ == name@;
                assert(self.provides_index@[i as int].0@ == name@);
                return Some(self.provides_index[i].1);
            }
            i = i + 1;
        }
        None
    }

    /// The unit `name` resolves to, by unit name first and virtual name second.
    pub fn resolve_name(&self, name: &str) -> (r: Option<UnitKey>)
        requires
            self.wf(),
        ensures
            match r {
                Some(k) => self.resolve(name@) == Some(k as int) && k < self.units().len(),
                None => self.resolve(name@) is None,
            },
    {
        match self.find_unit(name) {
            Some(k) => Some(k),
            None => self.find_provider(name),
        }
    }

    /// Adds a unit unless one of that name exists; the first definition is kept.
    fn insert_unit(&mut self, name: String, kind: UnitKind) -> (r: UnitKey)
        requires
            old(self).wf(),
        ensures
            final(self).wf(),
            final(self).provides() == old(self).provides(),
            final(self).same_settings(old(self)),
            match lookup(old(self).units(), name@) {
                Some(k) => r == k && final(self).units() == old(self).units()
                    && final(self).active() == old(self).active()
                    && final(self).required() == old(self).required(),
                None => {
                    &&& r == old(self).units().len()
                    &&& final(self).units().len() == old(self).units().len() + 1
                    &&& final(self).units().drop_last() == old(self).units()
                    &&& fresh_unit(name@, kind, final(self).units().last())
                    &&& final(self).active() == old(self).active().push(false)
                    &&& final(self).required() == old(self).required().push(false)
                },
            },
    {
        match self.find_unit(name.as_str()) {
            Some(k) => k,
            None => {
                let key = self.arena.len();
                let ghost old_units = self.arena@;
                self.arena.push(
                    Unit { name, kind, state: UnitState::Dead, dependencies: Vec::new(), last_exit: None },
                );
                self.active_units.push(false);
                self.required_units.push(false);
                assert(self.arena@.drop_last() =~= old_units);
                assert(names_unique(self.arena@)) by {
                    assert forall|i: int, j: int|
                        0 <= i < self.arena@.len() && 0 <= j < self.arena@.len() && i != j implies (#[trigger] self.arena@[i]).name@
                            != (#[trigger] self.arena@[j]).name@ by {
                        if i < old_units.len() && j < old_units.len() {
                            assert(old_units[i] == self.arena@[i]);
                            assert(old_units[j] == self.arena@[j]);
                        } else if i < old_units.len() {
                            assert(old_units[i] == self.arena@[i]);
                        } else {
                            assert(old_units[j] == self.arena@[j]);
                        }
                    }
                }
                assert forall|k: int, j: int|
                    0 <= k < self.arena@.len() && 0 <= j < self.arena@[k].dependencies@.len()
                        implies #[trigger] self.arena@[k].dependencies@[j] < self.arena@.len() by {
                    if k < old_units.len() {
                        assert(old_units[k] == self.arena@[k]);
                    }
                }
                key
            },
        }
    }

    /// Everything but the units, the active and required sets and the virtual names.
    pub open spec fn same_settings(&self, o: &Self) -> bool {
        &&& self.pids() == o.pids()
        &&& self.target() == o.target()
        &&& self.profile() == o.profile()
        &&& self.log_path() == o.log_path()
        &&& self.shutting() == o.shutting()
        &&& self.restart_history() == o.restart_history()
        &&& self.lenient() == o.lenient()
        &&& self.strict() == o.strict()
        &&& self.restarts() == o.restarts()
    }

    /// Registers `kind` under `name`; a second definition of a name is ignored.
    fn register_kind(&mut self, name: String, kind: UnitKind) -> (r: Result<UnitKey, ForgeError>)
        requires
            old(self).wf(),
        ensures
            final(self).wf(),
            final(self).same_settings(old(self)),
            final(self).provides() == old(self).provides(),
            r matches Ok(k) && inserted(old(self).units(), final(self).units(), name@, kind, k as int),
            final(self).units().len() == old(self).units().len() ==> final(self).active() == old(self).active()
                && final(self).required() == old(self).required(),
            final(self).units().len() > old(self).units().len() ==> final(self).active() == old(self).active().push(false)
                && final(self).required() == old(self).required().push(false),
    {
        let ghost nm = name@;
        let k = self.insert_unit(name, kind);
        Ok(k)
    }

    /// Registers a target pulling in `requires` and `wants`.
    pub fn register_target(&mut self, name: String, needs: Vec<String>, wants: Vec<String>) -> (r: Result<UnitKey, ForgeError>)
        requires
            old(self).wf(),
        ensures
            final(self).wf(),
            final(self).same_settings(old(self)),
            final(self).provides() == old(self).provides(),
            r matches Ok(k) && inserted(old(self).units(), final(self).units(), name@,
                UnitKind::Target { requires: needs, wants: wants }, k as int),
    {
        self.register_kind(name, UnitKind::Target { requires: needs, wants })
    }

    /// Registers a timer that starts `m.unit`.
    pub fn register_timer(&mut self, m: TimerManifest) -> (r: Result<UnitKey, ForgeError>)
        requires
            old(self).wf(),
        ensures
            final(self).wf(),
            final(self).same_settings(old(self)),
            final(self).provides() == old(self).provides(),
            r matches Ok(k) && inserted(old(self).units(), final(self).units(), m.name@,
                UnitKind::Timer { unit: m.unit, after: m.after, on_boot_usec: m.on_boot_usec, fired: false }, k as int),
    {
        self.register_kind(
            m.name,
            UnitKind::Timer { unit: m.unit, after: m.after, on_boot_usec: m.on_boot_usec, fired: false },
        )
    }

    /// Registers a mount unit, not yet mounted.
    pub fn register_mount(&mut self, m: MountManifest) -> (r: Result<UnitKey, ForgeError>)
        requires
            old(self).wf(),
        ensures
            final(self).wf(),
            final(self).same_settings(old(self)),
            final(self).provides() == old(self).provides(),
            r matches Ok(k) && inserted(old(self).units(), final(self).units(), m.name@,
                UnitKind::Mount { what: m.what, where_: m.where_, fstype: m.fstype, options: m.options, after: m.after, mounted: false },
                k as int),
    {
        self.register_kind(
            m.name,
            UnitKind::Mount {
                what: m.what,
                where_: m.where_,
                fstype: m.fstype,
                options: m.options,
                after: m.after,
                mounted: false,
            },
        )
    }

    /// Registers a device unit, not yet activated.
    pub fn register_device(&mut self, m: DeviceManifest) -> (r: Result<UnitKey, ForgeError>)
        requires
            old(self).wf(),
        ensures
            final(self).wf(),
            final(self).same_settings(old(self)),
            final(self).provides() == old(self).provides(),
            r matches Ok(k) && inserted(old(self).units(), final(self).units(), m.name@,
                UnitKind::Device { path: m.path, service: m.service, after: m.after, activated: false }, k as int),
    {
        self.register_kind(
            m.name,
            UnitKind::Device { path: m.path, service: m.service, after: m.after, activated: false },
        )
    }

    /// Registers a socket unit listening on `listen`, activating `service`.
    pub fn register_socket(&mut self, name: String, listen: Vec<String>, service: Option<String>, after: Vec<String>) -> (r: Result<UnitKey, ForgeError>)
        requires
            old(self).wf(),
        ensures
            final(self).wf(),
            final(self).same_settings(old(self)),
            final(self).provides() == old(self).provides(),
            r matches Ok(k) && inserted(old(self).units(), final(self).units(), name@,
                UnitKind::Socket { listen: listen, service: service, after: after, activation: None }, k as int),
    {
        self.register_kind(name, UnitKind::Socket { listen, service, after, activation: None })
    }

    /// Registers a service; each virtual name it provides is claimed for it unless
    /// another unit claimed that name first.
    pub fn register_service_manifest(&mut self, m: ServiceManifest) -> (r: Result<UnitKey, ForgeError>)
        requires
            old(self).wf(),
        ensures
            final(self).wf(),
            final(self).same_settings(old(self)),
            r matches Ok(k) && inserted(old(self).units(), final(self).units(), m.name@, service_kind(m), k as int)
                && final(self).provides() == add_provides(old(self).provides(), m.provides@, k),
    {
        let provides = m.provides.clone();
        let ghost kind = service_kind(m);
        let ghost mp = m.provides@;
        let name = m.name;
        let key = self.insert_unit(
            name,
            UnitKind::Service {
                exec_path: m.exec_path,
                args: m.args,
                after: m.after,
                requires: m.requires,
                wants: m.wants,
                sockets: m.sockets,
                restart: m.restart,
                cgroup: m.cgroup,
                service_type: m.service_type,
                environment: m.environment,
                exec_start_pre: m.exec_start_pre,
                bus_name: m.bus_name,
                sandbox: m.sandbox,
                user: m.user,
                group: m.group,
                working_directory: m.working_directory,
                runlevels: m.runlevels,
                timeout_secs: m.timeout_secs,
                pidfile: m.pidfile,
                pid: None,
                watchdog_usec: m.watchdog_usec,
                last_watchdog: None,
                stop_cmd: m.stop_cmd,
                stop_signal: m.stop_signal,
                reload_cmd: m.reload_cmd,
                reload_signal: m.reload_signal,
            },
        );
        let ghost prov0 = self.provides_index@;
        let ghost s1 = *self;
        let mut i: usize = 0;
        while i < provides.len()
            invariant
                self.wf(),
                self.same_settings(&s1),
                self.units() == s1.units(),
                self.active() == s1.active(),
                self.required() == s1.required(),
                key < self.arena@.len(),
                provides@ == mp,
                i <= provides@.len(),
                self.provides_index@ == add_provides(prov0, mp.take(i as int), key),
            decreases provides@.len() - i,
        {
            assert(mp.take(i + 1).drop_last() =~= mp.take(i as int));
            let vname = &provides[i];
            match self.find_provider(vname.as_str()) {
                Some(_) => {},
                None => {
                    let ghost before = self.provides_index@;
                    self.provides_index.push((vname.clone(), key));
                    assert forall|a: int, b: int|
                        0 <= a < self.provides_index@.len() && 0 <= b < self.provides_index@.len() && a != b
                        implies (#[trigger] self.provides_index@[a]).0@ != (#[trigger] self.provides_index@[b]).0@ by {
                        if a < before.len() && b < before.len() {
                            assert(before[a] == self.provides_index@[a]);
                            assert(before[b] == self.provides_index@[b]);
                        } else if a < before.len() {
                            assert(before[a] == self.provides_index@[a]);
                        } else {
                            assert(before[b] == self.provides_index@[b]);
                        }
                    }
                },
            }
            i = i + 1;
        }
        assert(mp.take(mp.len() as int) =~= mp);
        Ok(key)
    }

    /// Registers a plain service running `program` with the given dependencies.
    pub fn register_service(
        &mut self,
        name: String,
        program: String,
        args: Vec<String>,
        after: Vec<String>,
        needs: Vec<String>,
        wants: Vec<String>,
        sockets: Vec<String>,
        restart: RestartPolicy,
        cgroup: ServiceLimits,
    ) -> (r: Result<UnitKey, ForgeError>)
        requires
            old(self).wf(),
        ensures
            final(self).wf(),
            final(self).same_settings(old(self)),
            final(self).provides() == old(self).provides(),
            r is Ok,
            exists|m: ServiceManifest|
                plain_manifest(m, name@, program@, args, after, needs, wants, sockets, restart, cgroup)
                && #[trigger] inserted(old(self).units(), final(self).units(), name@, service_kind(m), r->Ok_0 as int),
    {
        let mut m = ServiceManifest::new(name, program);
        m.args = args;
        m.after = after;
        m.requires = needs;
        m.wants = wants;
        m.sockets = sockets;
        m.restart = restart;
        m.cgroup = cgroup;
        let ghost gm = m;
        assert(plain_manifest(gm, name@, program@, args, after, needs, wants, sockets, restart, cgroup));
        let ghost prov0 = self.provides();
        let r = self.register_service_manifest(m);
        assert(gm.provides@ =~= Seq::<String>::empty());
        assert(add_provides(prov0, gm.provides@, r->Ok_0) == prov0);
        r
    }

    /// Orders `must_start_first` ahead of the unit named `unit` (OpenRC `before=`).
    pub fn prepend_ordering(&mut self, unit: &str, must_start_first: &str) -> (r: Result<(), ForgeError>)
        requires
            old(self).wf(),
        ensures
            final(self).wf(),
            final(self).same_settings(old(self)),
            final(self).provides() == old(self).provides(),
            final(self).active() == old(self).active(),
            final(self).required() == old(self).required(),
            final(self).units().len() == old(self).units().len(),
            match lookup(old(self).units(), unit@) {
                None => r matches Err(ForgeError::NotFound(n)) && n@ == unit@ && final(self).units() == old(self).units(),
                Some(k) => {
                    &&& r is Ok
                    &&& forall|j: int| 0 <= j < old(self).units().len() && j != k ==> #[trigger] final(self).units()[j] == old(self).units()[j]
                    &&& final(self).units()[k].name == old(self).units()[k].name
                    &&& final(self).units()[k].state == old(self).units()[k].state
                    &&& final(self).units()[k].dependencies == old(self).units()[k].dependencies
                    &&& final(self).units()[k].last_exit == old(self).units()[k].last_exit
                    &&& ordering_prepended(old(self).units()[k].kind, final(self).units()[k].kind, must_start_first@)
                },
            },
    {
        let key = match self.find_unit(unit) {
            Some(k) => k,
            None => {
                return Err(ForgeError::NotFound(str_to_string(unit)));
            },
        };
        let dep = str_to_string(must_start_first);
        let ghost old_units = self.arena@;
        let u = &mut self.arena[key];
        match &mut u.kind {
            UnitKind::Service { after, .. } => push_absent(after, dep),
            UnitKind::Socket { after, .. } => push_absent(after, dep),
            UnitKind::Timer { after, .. } => push_absent(after, dep),
            UnitKind::Mount { after, .. } => push_absent(after, dep),
            UnitKind::Device { after, .. } => push_absent(after, dep),
            UnitKind::Target { .. } => {},
        }
        assert forall|k: int, j: int|
            0 <= k < self.arena@.len() && 0 <= j < self.arena@[k].dependencies@.len()
                implies #[trigger] self.arena@[k].dependencies@[j] < self.arena@.len() by {
            assert(old_units[k].dependencies == self.arena@[k].dependencies);
        }
        assert forall|i: int, j: int|
            0 <= i < self.arena@.len() && 0 <= j < self.arena@.len() && i != j implies (#[trigger] self.arena@[i]).name@
                != (#[trigger] self.arena@[j]).name@ by {
            assert(old_units[i].name == self.arena@[i].name);
            assert(old_units[j].name == self.arena@[j].name);
        }
        Ok(())
    }

    /// Appends to `out` the units `names` resolve to.
    fn add_resolved(&self, names: &Vec<String>, out: &mut Vec<usize>)
        requires
            self.wf(),
        ensures
            final(out)@ == old(out)@ + resolve_all(self.units(), self.provides(), strings_view(names@)),
    {
        let ghost out0 = out@;
        let ghost sv = strings_view(names@);
        let mut i: usize = 0;
        assert(sv.take(0) =~= Seq::<Seq<char>>::empty());
        assert(out0 + Seq::<usize>::empty() =~= out0);
        while i < names.len()
            invariant
                self.wf(),
                i <= names@.len(),
                sv == strings_view(names@),
                out@ == out0 + resolve_all(self.units(), self.provides(), sv.take(i as int)),
            decreases names@.len() - i,
        {
            assert(sv.take(i + 1).drop_last() =~= sv.take(i as int));
            assert(sv.take(i + 1).last() == names@[i as int]@);
            match self.resolve_name(names[i].as_str()) {
                Some(k) => {
                    out.push(k);
                },
                None => {},
            }
            i = i + 1;
        }
        assert(sv.take(names@.len() as int) =~= sv);
    }

    /// Appends to `out` the units `names` name, by unit name alone.
    fn add_looked_up(&self, names: &Vec<String>, out: &mut Vec<usize>)
        requires
            self.wf(),
        ensures
            final(out)@ == old(out)@ + lookup_all(self.units(), strings_view(names@)),
    {
        let ghost out0 = out@;
        let ghost sv = strings_view(names@);
        let mut i: usize = 0;
        assert(sv.take(0) =~= Seq::<Seq<char>>::empty());
        assert(out0 + Seq::<usize>::empty() =~= out0);
        while i < names.len()
            invariant
                self.wf(),
                i <= names@.len(),
                sv == strings_view(names@),
                out@ == out0 + lookup_all(self.units(), sv.take(i as int)),
            decreases names@.len() - i,
        {
            assert(sv.take(i + 1).drop_last() =~= sv.take(i as int));
            assert(sv.take(i + 1).last() == names@[i as int]@);
            match self.find_unit(names[i].as_str()) {
                Some(k) => {
                    out.push(k);
                },
                None => {},
            }
            i = i + 1;
        }
        assert(sv.take(names@.len() as int) =~= sv);
    }

    /// Appends to `out` the unit `name` resolves to.
    fn add_resolved_one(&self, name: &String, out: &mut Vec<usize>)
        requires
            self.wf(),
        ensures
            final(out)@ == old(out)@ + resolve_all(self.units(), self.provides(), seq![name@]),
    {
        let ghost o = out@;
        assert(seq![name@].drop_last() =~= Seq::<Seq<char>>::empty());
        assert(seq![name@].last() == name@);
        assert(resolve_all(self.units(), self.provides(), seq![name@].drop_last()) =~= Seq::<usize>::empty());
        match self.resolve_name(name.as_str()) {
            Some(k) => {
                out.push(k);
                assert(out@ =~= o + Seq::<usize>::empty().push(k));
            },
            None => {
                assert(out@ =~= o + Seq::<usize>::empty());
            },
        }
    }

    /// Appends to `out` the unit named `name`.
    fn add_looked_up_one(&self, name: &String, out: &mut Vec<usize>)
        requires
            self.wf(),
        ensures
            final(out)@ == old(out)@ + lookup_all(self.units(), seq![name@]),
    {
        let ghost o = out@;
        assert(seq![name@].drop_last() =~= Seq::<Seq<char>>::empty());
        assert(seq![name@].last() == name@);
        assert(lookup_all(self.units(), seq![name@].drop_last()) =~= Seq::<usize>::empty());
        match self.find_unit(name.as_str()) {
            Some(k) => {
                out.push(k);
                assert(out@ =~= o + Seq::<usize>::empty().push(k));
            },
            None => {
                assert(out@ =~= o + Seq::<usize>::empty());
            },
        }
    }

    /// What unit `k` pulls into a closure.
    fn pull_edges(&self, k: usize) -> (r: Vec<usize>)
        requires
            self.wf(),
            k < self.units().len(),
        ensures
            r@ == pull_graph(self.units(), self.provides())[k as int],
    {
        let mut out: Vec<usize> = Vec::new();
        let ghost u = self.arena@[k as int];
        let ghost e = Seq::<usize>::empty();
        match &self.arena[k].kind {
            UnitKind::Target { requires: reqs, wants } => {
                self.add_resolved(reqs, &mut out);
                self.add_resolved(wants, &mut out);
            },
            UnitKind::Service { requires: reqs, wants, .. } => {
                self.add_resolved(reqs, &mut out);
                self.add_resolved(wants, &mut out);
            },
            UnitKind::Socket { service, .. } => {
                match service {
                    Some(svc) => self.add_resolved_one(svc, &mut out),
                    None => {},
                }
            },
            UnitKind::Device { service, .. } => {
                self.add_resolved_one(service, &mut out);
            },
            _ => {},
        }
        assert(out@ =~= pull_graph(self.units(), self.provides())[k as int]);
        out
    }

    /// The socket units unit `k` brings along.
    fn socket_edges(&self, k: usize) -> (r: Vec<usize>)
        requires
            self.wf(),
            k < self.units().len(),
        ensures
            r@ == socket_graph(self.units())[k as int],
    {
        let mut out: Vec<usize> = Vec::new();
        match &self.arena[k].kind {
            UnitKind::Service { sockets, .. } => self.add_looked_up(sockets, &mut out),
            _ => {},
        }
        assert(out@ =~= socket_graph(self.units())[k as int]);
        out
    }

    /// The units unit `k` requires, by unit name.
    fn requires_edges(&self, k: usize) -> (r: Vec<usize>)
        requires
            self.wf(),
            k < self.units().len(),
        ensures
            r@ == requires_graph(self.units())[k as int],
    {
        let mut out: Vec<usize> = Vec::new();
        match &self.arena[k].kind {
            UnitKind::Target { requires: reqs, .. } => self.add_looked_up(reqs, &mut out),
            UnitKind::Service { requires: reqs, .. } => self.add_looked_up(reqs, &mut out),
            UnitKind::Socket { service, .. } => {
                match service {
                    Some(svc) => self.add_looked_up_one(svc, &mut out),
                    None => {},
                }
            },
            _ => {},
        }
        assert(out@ =~= requires_graph(self.units())[k as int]);
        out
    }

    /// The adjacency lists of `rel` over all units.
    fn adjacency(&self, rel: Relation) -> (r: Vec<Vec<usize>>)
        requires
            self.wf(),
        ensures
            r@.map_values(|l: Vec<usize>| l@) == relation_graph(rel, self.units(), self.provides()),
            adj_bounded(r@.map_values(|l: Vec<usize>| l@), r@.len()),
            r@.len() == self.units().len(),
    {
        let ghost g = relation_graph(rel, self.units(), self.provides());
        let mut r: Vec<Vec<usize>> = Vec::new();
        let mut k: usize = 0;
        while k < self.arena.len()
            invariant
                self.wf(),
                g == relation_graph(rel, self.units(), self.provides()),
                k <= self.arena@.len(),
                r@.len() == k,
                forall|i: int| 0 <= i < k ==> (#[trigger] r@[i])@ == g[i],
            decreases self.arena@.len() - k,
        {
            let e = match rel {
                Relation::Pull => self.pull_edges(k),
                Relation::Sockets => self.socket_edges(k),
                Relation::Requires => self.requires_edges(k),
            };
            r.push(e);
            k = k + 1;
        }
        assert(r@.map_values(|l: Vec<usize>| l@) =~= g);
        assert forall|a: int, j: int| 0 <= a < g.len() && 0 <= j < g[a].len() implies #[trigger] g[a][j] < g.len() by {
            match rel {
                Relation::Pull => {
                    lemma_resolve_all_bounded(self.units(), self.provides(), kind_requires(self.units()[a].kind));
                    lemma_resolve_all_bounded(self.units(), self.provides(), kind_wants(self.units()[a].kind));
                    let p = resolve_all(self.units(), self.provides(), kind_requires(self.units()[a].kind));
                    let q = resolve_all(self.units(), self.provides(), kind_wants(self.units()[a].kind));
                    if j < p.len() {
                        assert(g[a][j] == p[j]);
                    } else {
                        assert(g[a][j] == q[j - p.len()]);
                    }
                },
                Relation::Sockets => {
                    lemma_lookup_all_bounded(self.units(), kind_sockets(self.units()[a].kind));
                },
                Relation::Requires => {
                    lemma_lookup_all_bounded(self.units(), kind_requires(self.units()[a].kind));
                },
            }
        }
        r
    }

    /// The first name unit `k` requires that resolves to nothing.
    fn first_missing(&self, k: usize) -> (r: Option<String>)
        requires
            self.wf(),
            k < self.units().len(),
        ensures
            r is None <==> !missing_required(self.units(), self.provides(), k as int),
            r matches Some(d) ==> kind_requires(self.units()[k as int].kind).contains(d@)
                && resolve_in(self.units(), self.provides(), d@) is None,
    {
        let ghost reqs = kind_requires(self.units()[k as int].kind);
        match &self.arena[k].kind {
            UnitKind::Target { requires: names, .. } => self.missing_in(names),
            UnitKind::Service { requires: names, .. } => self.missing_in(names),
            UnitKind::Socket { service, .. } => {
                match service {
                    Some(svc) => {
                        assert(reqs[0] == svc@);
                        if self.resolve_name(svc.as_str()).is_none() {
                            Some(str_to_string(svc.as_str()))
                        } else {
                            None
                        }
                    },
                    None => None,
                }
            },
            _ => None,
        }
    }

    /// The first of `names` that resolves to nothing.
    fn missing_in(&self, names: &Vec<String>) -> (r: Option<String>)
        requires
            self.wf(),
        ensures
            r is None <==> forall|i: int| 0 <= i < names@.len() ==> resolve_in(self.units(), self.provides(), #[trigger] strings_view(names@)[i]) is Some,
            r matches Some(d) ==> strings_view(names@).contains(d@) && resolve_in(self.units(), self.provides(), d@) is None,
    {
        let mut i: usize = 0;
        while i < names.len()
            invariant
                self.wf(),
                i <= names@.len(),
                forall|j: int| 0 <= j < i ==> resolve_in(self.units(), self.provides(), #[trigger] strings_view(names@)[j]) is Some,
            decreases names@.len() - i,
        {
            assert(strings_view(names@)[i as int] == names@[i as int]@);
            if self.resolve_name(names[i].as_str()).is_none() {
                return Some(str_to_string(names[i].as_str()));
            }
            i = i + 1;
        }
        None
    }

    /// Computes the units the active target brings up: everything its `requires`
    /// and `wants` reach (through unit names and virtual names), the sockets of
    /// those services, filtered by the runlevel database `db`. The required units are
    /// the units of that set reached over hard `requires` edges from it: what an active
    /// unit requires, and what that requires in turn; a unit only wanted is not
    /// required. A missing required name fails unless boot is lenient.
    pub fn resolve_target_closure(&mut self, db: &RcDatabase) -> (r: Result<(), ForgeError>)
        requires
            old(self).wf(),
        ensures
            final(self).wf(),
            final(self).same_settings(old(self)),
            final(self).units() == old(self).units(),
            final(self).provides() == old(self).provides(),
            r is Err ==> final(self).active() == old(self).active() && final(self).required() == old(self).required(),
            match lookup(old(self).units(), old(self).target()) {
                None => r matches Err(ForgeError::MissingUnit { unit, dependency })
                    && unit@ == "default-target"@ && dependency@ == old(self).target(),
                Some(t) => if !(old(self).units()[t].kind is Target) {
                    r matches Err(ForgeError::InvalidOperation(m))
                        && m@ == "'"@ + old(self).target() + "' is not a target unit"@
                } else if !old(self).lenient() && exists|k: int|
                    reachable(pull_graph(old(self).units(), old(self).provides()), set![t], k)
                        && #[trigger] missing_required(old(self).units(), old(self).provides(), k) {
                    r matches Err(ForgeError::MissingUnit { unit, dependency }) && exists|k: int|
                        reachable(pull_graph(old(self).units(), old(self).provides()), set![t], k)
                        && #[trigger] missing_required(old(self).units(), old(self).provides(), k)
                        && unit@ == old(self).units()[k].name@
                        && kind_requires(old(self).units()[k].kind).contains(dependency@)
                        && resolve_in(old(self).units(), old(self).provides(), dependency@) is None
                } else {
                    &&& r is Ok
                    &&& forall|k: int| 0 <= k < old(self).units().len() ==> (#[trigger] final(self).active()[k]
                        <==> closure_of(old(self).units(), old(self).provides(), t, *db, runlevel_of(old(self).target()), k))
                    &&& forall|k: int| 0 <= k < old(self).units().len() ==> (#[trigger] final(self).required()[k]
                        <==> (final(self).active()[k] && reachable(requires_graph(old(self).units()),
                            successors(requires_graph(old(self).units()), flagged(final(self).active())), k)))
                },
            },
    {
        let target_name = self.active_target.clone();
        proof {
            reveal_strlit("default-target");
            reveal_strlit("'");
            reveal_strlit("' is not a target unit");
        }
        let t = match self.find_unit(target_name.as_str()) {
            Some(t) => t,
            None => {
                return Err(ForgeError::MissingUnit { unit: "default-target".to_string(), dependency: target_name });
            },
        };
        let is_target = match &self.arena[t].kind {
            UnitKind::Target { .. } => true,
            _ => false,
        };
        if !is_target {
            let head = concat("'", target_name.as_str());
            let m = concat(head.as_str(), "' is not a target unit");
            return Err(ForgeError::InvalidOperation(m));
        }
        let ghost units = self.units();
        let ghost prov = self.provides();
        let n = self.arena.len();
        let pull = self.adjacency(Relation::Pull);
        let mut stop: Vec<bool> = Vec::new();
        let mut k: usize = 0;
        while k < n
            invariant
                self.wf(),
                n == self.units().len(),
                k <= n,
                stop@.len() == k,
                forall|j: int| 0 <= j < k ==> (#[trigger] stop@[j] <==> (!self.lenient() && missing_required(self.units(), self.provides(), j))),
            decreases n - k,
        {
            let missing = !self.boot_lenient && self.first_missing(k).is_some();
            stop.push(missing);
            k = k + 1;
        }
        let mut start: Vec<usize> = Vec::new();
        start.push(t);
        assert(listed(start@) =~= set![t as int]) by {
            assert(start@[0] == t);
        }
        let seen = match bfs(&pull, &start, &stop) {
            Ok(seen) => seen,
            Err(bad) => {
                let dep = match self.first_missing(bad) {
                    Some(d) => d,
                    None => {
                        return Err(ForgeError::CycleDetected);
                    },
                };
                let unit = str_to_string(self.arena[bad].name.as_str());
                return Err(ForgeError::MissingUnit { unit, dependency: dep });
            },
        };
        let ghost pulled = reach_set(pull_graph(units, prov), set![t as int]);
        assert(flagged(seen@) =~= pulled) by {
            assert forall|x: int| pulled.contains(x) implies 0 <= x < n && seen@[x] by {
                lemma_reachable_bounded(pull_graph(units, prov), set![t as int], n as nat, x);
            }
        }
        assert(!(!self.lenient() && exists|k: int|
            reachable(pull_graph(units, prov), set![t as int], k) && #[trigger] missing_required(units, prov, k))) by {
            if !self.lenient() && exists|k: int|
                reachable(pull_graph(units, prov), set![t as int], k) && #[trigger] missing_required(units, prov, k) {
                let k = choose|k: int| reachable(pull_graph(units, prov), set![t as int], k) && #[trigger] missing_required(units, prov, k);
                lemma_reachable_bounded(pull_graph(units, prov), set![t as int], n as nat, k);
                assert(seen@[k]);
                assert(stop@[k]);
            }
        }
        let socks = self.adjacency(Relation::Sockets);
        let start2 = flagged_keys(&seen);
        let mut none: Vec<bool> = Vec::new();
        let mut k: usize = 0;
        while k < n
            invariant
                k <= n,
                none@.len() == k,
                forall|j: int| 0 <= j < k ==> !#[trigger] none@[j],
            decreases n - k,
        {
            none.push(false);
            k = k + 1;
        }
        let with_sockets = match bfs(&socks, &start2, &none) {
            Ok(v) => v,
            Err(_) => {
                return Err(ForgeError::CycleDetected);
            },
        };
        let runlevel = target_to_runlevel(target_name.as_str());
        let mut active: Vec<bool> = Vec::new();
        let mut k: usize = 0;
        while k < n
            invariant
                self.wf(),
                n == self.units().len(),
                units == self.units(),
                with_sockets@.len() == n,
                runlevel@ == runlevel_of(self.target()),
                k <= n,
                active@.len() == k,
                forall|j: int| 0 <= j < k ==> (#[trigger] active@[j] <==> (with_sockets@[j]
                    && runlevel_keeps(*db, units[j], runlevel_of(self.target())))),
            decreases n - k,
        {
            let keep = with_sockets[k] && match &self.arena[k].kind {
                UnitKind::Service { runlevels, .. } => !db.seeded || db.is_enabled(self.arena[k].name.as_str(), runlevel.as_str(), runlevels),
                _ => true,
            };
            active.push(keep);
            k = k + 1;
        }
        let reqs = self.adjacency(Relation::Requires);
        let start3 = successor_keys(&reqs, &active);
        let reached = match bfs(&reqs, &start3, &none) {
            Ok(v) => v,
            Err(_) => {
                return Err(ForgeError::CycleDetected);
            },
        };
        let mut required: Vec<bool> = Vec::new();
        let mut k: usize = 0;
        while k < n
            invariant
                k <= n,
                reached@.len() == n,
                active@.len() == n,
                required@.len() == k,
                forall|j: int| 0 <= j < k ==> (#[trigger] required@[j] <==> (active@[j] && reached@[j])),
            decreases n - k,
        {
            required.push(active[k] && reached[k]);
            k = k + 1;
        }
        self.active_units = active;
        self.required_units = required;
        Ok(())
    }

    /// The ordering names of unit `k`.
    fn ordering_of(&self, k: usize) -> (r: Vec<String>)
        requires
            self.wf(),
            k < self.units().len(),
        ensures
            strings_view(r@) == unit_ordering(self.units()[k as int].kind),
    {
        let mut out: Vec<String> = Vec::new();
        let (after, reqs) = match &self.arena[k].kind {
            UnitKind::Service { after, requires: reqs, .. } => (after, Some(reqs)),
            UnitKind::Socket { after, .. } => (after, None),
            UnitKind::Device { after, .. } => (after, None),
            UnitKind::Timer { after, .. } => (after, None),
            UnitKind::Mount { after, .. } => (after, None),
            UnitKind::Target { .. } => {
                assert(strings_view(out@) =~= unit_ordering(self.units()[k as int].kind));
                return out;
            },
        };
        let mut i: usize = 0;
        while i < after.len()
            invariant
                i <= after@.len(),
                strings_view(out@) == strings_view(after@).take(i as int),
            decreases after@.len() - i,
        {
            let ghost before = strings_view(out@);
            out.push(str_to_string(after[i].as_str()));
            assert(strings_view(out@) =~= before.push(after@[i as int]@));
            assert(strings_view(after@).take(i + 1) =~= strings_view(after@).take(i as int).push(after@[i as int]@));
            i = i + 1;
        }
        assert(strings_view(after@).take(after@.len() as int) =~= strings_view(after@));
        match reqs {
            Some(reqs) => {
                let ghost a = strings_view(after@);
                let ghost q = strings_view(reqs@);
                let mut j: usize = 0;
                assert(q.take(0) =~= Seq::<Seq<char>>::empty());
                while j < reqs.len()
                    invariant
                        j <= reqs@.len(),
                        q == strings_view(reqs@),
                        strings_view(out@) == ordering_names(a, q.take(j as int)),
                    decreases reqs@.len() - j,
                {
                    assert(q.take(j + 1).drop_last() =~= q.take(j as int));
                    assert(q.take(j + 1).last() == reqs@[j as int]@);
                    if !crate::rc_update::contains_string(&out, reqs[j].as_str()) {
                        let ghost before = strings_view(out@);
                        out.push(str_to_string(reqs[j].as_str()));
                        assert(strings_view(out@) =~= before.push(reqs@[j as int]@));
                    }
                    j = j + 1;
                }
                assert(q.take(reqs@.len() as int) =~= q);
            },
            None => {},
        }
        out
    }

    /// The first ordering name of unit `k` that resolves to nothing.
    fn first_missing_order(&self, k: usize) -> (r: Option<String>)
        requires
            self.wf(),
            k < self.units().len(),
        ensures
            r is None <==> !missing_ordering(self.units(), self.provides(), k as int),
            r matches Some(d) ==> unit_ordering(self.units()[k as int].kind).contains(d@)
                && resolve_in(self.units(), self.provides(), d@) is None,
    {
        let names = self.ordering_of(k);
        self.missing_in(&names)
    }

    /// The units unit `k` is ordered after.
    fn ordering_deps(&self, k: usize) -> (r: Vec<usize>)
        requires
            self.wf(),
            k < self.units().len(),
        ensures
            r@ == order_deps(self.units(), self.provides(), self.active(), unit_ordering(self.units()[k as int].kind)),
            forall|i: int| 0 <= i < r@.len() ==> #[trigger] r@[i] < self.units().len(),
    {
        let names = self.ordering_of(k);
        let ghost sv = strings_view(names@);
        let mut out: Vec<usize> = Vec::new();
        let mut i: usize = 0;
        assert(sv.take(0) =~= Seq::<Seq<char>>::empty());
        while i < names.len()
            invariant
                self.wf(),
                i <= names@.len(),
                sv == strings_view(names@),
                out@ == order_deps(self.units(), self.provides(), self.active(), sv.take(i as int)),
                forall|j: int| 0 <= j < out@.len() ==> #[trigger] out@[j] < self.units().len(),
            decreases names@.len() - i,
        {
            assert(sv.take(i + 1).drop_last() =~= sv.take(i as int));
            assert(sv.take(i + 1).last() == names@[i as int]@);
            match self.resolve_name(names[i].as_str()) {
                Some(d) => {
                    let is_target = match &self.arena[d].kind {
                        UnitKind::Target { .. } => true,
                        _ => false,
                    };
                    if self.active_units[d] && !is_target {
                        out.push(d);
                    }
                },
                None => {},
            }
            i = i + 1;
        }
        assert(sv.take(names@.len() as int) =~= sv);
        out
    }

    /// Orders every active unit other than a target after the units its ordering
    /// names resolve to, keeping only active units other than targets. A name that
    /// resolves to nothing fails the call, unless boot is lenient; then it is skipped.
    pub fn resolve_dependencies(&mut self) -> (r: Result<(), ForgeError>)
        requires
            old(self).wf(),
        ensures
            final(self).wf(),
            final(self).same_settings(old(self)),
            final(self).provides() == old(self).provides(),
            final(self).active() == old(self).active(),
            final(self).required() == old(self).required(),
            final(self).units().len() == old(self).units().len(),
            if !old(self).lenient() && exists|k: int| 0 <= k < old(self).units().len()
                && orders(old(self).units(), old(self).active(), k)
                && #[trigger] missing_ordering(old(self).units(), old(self).provides(), k) {
                &&& final(self).units() == old(self).units()
                &&& r matches Err(ForgeError::MissingUnit { unit, dependency }) && exists|k: int|
                    0 <= k < old(self).units().len() && orders(old(self).units(), old(self).active(), k)
                    && #[trigger] missing_ordering(old(self).units(), old(self).provides(), k)
                    && unit@ == old(self).units()[k].name@
                    && unit_ordering(old(self).units()[k].kind).contains(dependency@)
                    && resolve_in(old(self).units(), old(self).provides(), dependency@) is None
            } else {
                &&& r is Ok
                &&& forall|k: int| 0 <= k < old(self).units().len() ==> {
                    &&& (#[trigger] final(self).units()[k]).name == old(self).units()[k].name
                    &&& final(self).units()[k].kind == old(self).units()[k].kind
                    &&& final(self).units()[k].state == old(self).units()[k].state
                    &&& final(self).units()[k].last_exit == old(self).units()[k].last_exit
                    &&& final(self).units()[k].dependencies@ == if orders(old(self).units(), old(self).active(), k) {
                        order_deps(old(self).units(), old(self).provides(), old(self).active(),
                            unit_ordering(old(self).units()[k].kind))
                    } else {
                        old(self).units()[k].dependencies@
                    }
                }
            },
    {
        let n = self.arena.len();
        if !self.boot_lenient {
            let mut k: usize = 0;
            while k < n
                invariant
                    self.wf(),
                    n == self.units().len(),
                    !self.lenient(),
                    k <= n,
                    forall|j: int| 0 <= j < k ==> !(orders(self.units(), self.active(), j)
                        && #[trigger] missing_ordering(self.units(), self.provides(), j)),
                decreases n - k,
            {
                let is_target = match &self.arena[k].kind {
                    UnitKind::Target { .. } => true,
                    _ => false,
                };
                if self.active_units[k] && !is_target {
                    match self.first_missing_order(k) {
                        Some(dep) => {
                            let unit = str_to_string(self.arena[k].name.as_str());
                            return Err(ForgeError::MissingUnit { unit, dependency: dep });
                        },
                        None => {},
                    }
                }
                k = k + 1;
            }
        }
        let ghost units0 = self.units();
        let ghost prov = self.provides();
        let ghost act = self.active();
        let mut all: Vec<Option<Vec<usize>>> = Vec::new();
        let mut k: usize = 0;
        while k < n
            invariant
                self.wf(),
                n == self.units().len(),
                k <= n,
                units0 == self.units(),
                prov == self.provides(),
                act == self.active(),
                all@.len() == k,
                forall|j: int| 0 <= j < k ==> match #[trigger] all@[j] {
                    Some(d) => orders(units0, act, j) && d@ == order_deps(units0, prov, act, unit_ordering(units0[j].kind))
                        && forall|i: int| 0 <= i < d@.len() ==> #[trigger] d@[i] < n,
                    None => !orders(units0, act, j),
                },
            decreases n - k,
        {
            let is_target = match &self.arena[k].kind {
                UnitKind::Target { .. } => true,
                _ => false,
            };
            if self.active_units[k] && !is_target {
                all.push(Some(self.ordering_deps(k)));
            } else {
                all.push(None);
            }
            k = k + 1;
        }
        let mut k: usize = 0;
        while k < n
            invariant
                self.wf(),
                n == self.units().len(),
                k <= n,
                all@.len() == n,
                self.same_settings(old(self)),
                self.required() == old(self).required(),
                self.provides() == old(self).provides(),
                self.active() == old(self).active(),
                units0 == old(self).units(),
                prov == old(self).provides(),
                act == old(self).active(),
                forall|j: int| 0 <= j < n ==> match #[trigger] all@[j] {
                    Some(d) => orders(units0, act, j) && d@ == order_deps(units0, prov, act, unit_ordering(units0[j].kind))
                        && forall|i: int| 0 <= i < d@.len() ==> #[trigger] d@[i] < n,
                    None => !orders(units0, act, j),
                },
                forall|j: int| 0 <= j < n ==> {
                    &&& (#[trigger] self.units()[j]).name == units0[j].name
                    &&& self.units()[j].kind == units0[j].kind
                    &&& self.units()[j].state == units0[j].state
                    &&& self.units()[j].last_exit == units0[j].last_exit
                    &&& self.units()[j].dependencies@ == if j < k && orders(units0, act, j) {
                        order_deps(units0, prov, act, unit_ordering(units0[j].kind))
                    } else {
                        units0[j].dependencies@
                    }
                },
            decreases n - k,
        {
            match &all[k] {
                Some(deps) => {
                    let ghost before = self.arena@;
                    let u = &mut self.arena[k];
                    u.dependencies = deps.clone();
                    assert(self.arena@[k as int].dependencies@ == deps@);
                    assert forall|a: int, b: int|
                        0 <= a < self.arena@.len() && 0 <= b < self.arena@.len() && a != b implies (#[trigger] self.arena@[a]).name@
                            != (#[trigger] self.arena@[b]).name@ by {
                        assert(before[a].name == self.arena@[a].name);
                        assert(before[b].name == self.arena@[b].name);
                    }
                    assert forall|a: int, j: int|
                        0 <= a < self.arena@.len() && 0 <= j < self.arena@[a].dependencies@.len()
                            implies #[trigger] self.arena@[a].dependencies@[j] < self.arena@.len() by {
                        if a != k {
                            assert(before[a].dependencies == self.arena@[a].dependencies);
                        }
                    }
                    assert forall|j: int| 0 <= j < n implies {
                        &&& (#[trigger] self.units()[j]).name == units0[j].name
                        &&& self.units()[j].kind == units0[j].kind
                        &&& self.units()[j].state == units0[j].state
                        &&& self.units()[j].last_exit == units0[j].last_exit
                        &&& self.units()[j].dependencies@ == if j < k + 1 && orders(units0, act, j) {
                            order_deps(units0, prov, act, unit_ordering(units0[j].kind))
                        } else {
                            units0[j].dependencies@
                        }
                    } by {
                        if j != k {
                            assert(before[j] == self.arena@[j]);
                        }
                    }
                },
                None => {},
            }
            k = k + 1;
        }
        Ok(())
    }

    /// The units ready once the waves `w` have started, in key order. `flags` marks the
    /// units already in a wave.
    fn ready_units(&self, w: Ghost<Seq<Seq<usize>>>, flags: &Vec<bool>) -> (r: Vec<usize>)
        requires
            self.wf(),
            flags@.len() == self.units().len(),
            forall|k: int| 0 <= k < self.units().len() ==> (#[trigger] flags@[k] <==> placed(w@, w@.len() as int, k)),
        ensures
            forall|k: int| (exists|x: int| 0 <= x < r@.len() && #[trigger] r@[x] as int == k) <==> ready(self.units(), self.active(), w@, w@.len() as int, k),
            forall|i: int| 0 <= i < r@.len() ==> #[trigger] r@[i] < self.units().len(),
            forall|a: int, b: int| 0 <= a < r@.len() && 0 <= b < r@.len() && a != b ==> #[trigger] r@[a] != #[trigger] r@[b],
            forall|i: int| 0 <= i < r@.len() ==> !flags@[#[trigger] r@[i] as int],
    {
        let ghost units = self.units();
        let ghost wv = w@;
        let ghost up = w@.len() as int;
        let n = self.arena.len();
        let mut r: Vec<usize> = Vec::new();
        let mut k: usize = 0;
        while k < n
            invariant
                self.wf(),
                units == self.units(),
                n == units.len(),
                flags@.len() == n,
                wv == w@,
                up == w@.len(),
                forall|j: int| 0 <= j < n ==> (#[trigger] flags@[j] <==> placed(wv, up, j)),
                k <= n,
                forall|i: int| 0 <= i < r@.len() ==> #[trigger] r@[i] < k,
                forall|a: int, b: int| 0 <= a < r@.len() && 0 <= b < r@.len() && a < b ==> r@[a] < r@[b],
                forall|i: int| 0 <= i < r@.len() ==> !flags@[#[trigger] r@[i] as int],
                forall|j: int| (exists|x: int| 0 <= x < r@.len() && #[trigger] r@[x] as int == j)
                    <==> (0 <= j < k && ready(units, self.active(), wv, up, j)),
            decreases n - k,
        {
            let bootable = self.active_units[k] && match &self.arena[k].kind {
                UnitKind::Service { .. } => true,
                UnitKind::Socket { .. } => true,
                UnitKind::Device { .. } => true,
                UnitKind::Mount { .. } => true,
                _ => false,
            };
            let mut ok = bootable && !flags[k];
            let deps = &self.arena[k].dependencies;
            let mut d: usize = 0;
            while ok && d < deps.len()
                invariant
                    self.wf(),
                    units == self.units(),
                    k < n,
                    n == units.len(),
                    flags@.len() == n,
                    deps@ == units[k as int].dependencies@,
                    d <= deps@.len(),
                    forall|j: int| 0 <= j < n ==> (#[trigger] flags@[j] <==> placed(wv, up, j)),
                    ok ==> forall|e: int| 0 <= e < d ==> placed(wv, up, #[trigger] deps@[e] as int),
                    !ok ==> !(bootable && !flags@[k as int] && deps_placed(units, wv, up, k as int)),
                    ok ==> bootable && !flags@[k as int],
                decreases deps@.len() - d,
            {
                let dk = deps[d];
                assert(deps@[d as int] < n);
                if !flags[dk] {
                    ok = false;
                    assert(!placed(wv, up, deps@[d as int] as int));
                }
                d = d + 1;
            }
            assert(ok <==> ready(units, self.active(), wv, up, k as int));
            if ok {
                let ghost before = r@;
                r.push(k);
                assert forall|j: int| (exists|x: int| 0 <= x < r@.len() && #[trigger] r@[x] as int == j)
                    <==> (0 <= j < k + 1 && ready(units, self.active(), wv, up, j)) by {
                    if exists|x: int| 0 <= x < r@.len() && #[trigger] r@[x] as int == j {
                        let x = choose|x: int| 0 <= x < r@.len() && #[trigger] r@[x] as int == j;
                        if x < before.len() {
                            assert(before[x] as int == j);
                        }
                    }
                    if 0 <= j < k && ready(units, self.active(), wv, up, j) {
                        let x = choose|x: int| 0 <= x < before.len() && #[trigger] before[x] as int == j;
                        assert(r@[x] as int == j);
                    }
                    if j == k {
                        assert(r@[before.len() as int] as int == j);
                    }
                }
            } else {
                assert forall|j: int| (exists|x: int| 0 <= x < r@.len() && #[trigger] r@[x] as int == j)
                    <==> (0 <= j < k + 1 && ready(units, self.active(), wv, up, j)) by {
                    if exists|x: int| 0 <= x < r@.len() && #[trigger] r@[x] as int == j {
                        let x = choose|x: int| 0 <= x < r@.len() && #[trigger] r@[x] as int == j;
                        assert(r@[x] < k);
                    }
                }
            }
            k = k + 1;
        }
        r
    }

    /// The boot waves: each wave holds the bootable units all of whose dependencies
    /// started in earlier waves, sorted by name. Fails with `CycleDetected` when
    /// some bootable unit never becomes ready.
    pub fn boot_waves(&self) -> (r: Result<Vec<Vec<UnitKey>>, ForgeError>)
        requires
            self.wf(),
        ensures
            r matches Ok(w) ==> leveled(self.units(), self.active(), waves_view(w@))
                && complete(self.units(), self.active(), waves_view(w@)),
            r matches Err(e) ==> e is CycleDetected && exists|w: Seq<Seq<usize>>|
                leveled(self.units(), self.active(), w) && !complete(self.units(), self.active(), w),
    {
        let ghost units = self.units();
        let ghost active = self.active();
        let n = self.arena.len();
        let mut flags: Vec<bool> = Vec::new();
        let mut k: usize = 0;
        while k < n
            invariant
                k <= n,
                flags@.len() == k,
                forall|j: int| 0 <= j < k ==> !#[trigger] flags@[j],
            decreases n - k,
        {
            flags.push(false);
            k = k + 1;
        }
        let mut waves: Vec<Vec<usize>> = Vec::new();
        assert forall|j: int| 0 <= j < n implies (#[trigger] flags@[j] <==> placed(waves_view(waves@), 0, j)) by {}
        let mut done = false;
        while !done
            invariant
                self.wf(),
                units == self.units(),
                active == self.active(),
                n == units.len(),
                flags@.len() == n,
                forall|j: int| 0 <= j < n ==> (#[trigger] flags@[j] <==> placed(waves_view(waves@), waves@.len() as int, j)),
                forall|i: int| 0 <= i < waves@.len() ==> #[trigger] is_wave(units, active, waves_view(waves@), i),
                done ==> forall|j: int| !#[trigger] ready(units, active, waves_view(waves@), waves@.len() as int, j),
            decreases count_unset(flags@), if done { 0int } else { 1int },
        {
            let ghost wv = waves_view(waves@);
            let ready_now = self.ready_units(Ghost(wv), &flags);
            if ready_now.len() == 0 {
                done = true;
                assert forall|j: int| !#[trigger] ready(units, active, wv, wv.len() as int, j) by {
                    if ready(units, active, wv, wv.len() as int, j) {
                        let x = choose|x: int| 0 <= x < ready_now@.len() && #[trigger] ready_now@[x] as int == j;
                    }
                }
            } else {
                let wave = sort_by_name(&self.arena, &ready_now);
                let ghost c0 = count_unset(flags@);
                assert forall|i: int| 0 <= i < wave@.len() implies !flags@[#[trigger] wave@[i] as int] by {
                    assert(wave@.contains(wave@[i]));
                    assert(ready_now@.contains(wave@[i]));
                    let y = choose|y: int| 0 <= y < ready_now@.len() && ready_now@[y] == wave@[i];
                    assert(!flags@[ready_now@[y] as int]);
                }
                let mut m: usize = 0;
                while m < wave.len()
                    invariant
                        n == units.len(),
                        flags@.len() == n,
                        m <= wave@.len(),
                        forall|i: int| 0 <= i < wave@.len() ==> #[trigger] wave@[i] < n,
                        forall|a: int, b: int| 0 <= a < wave@.len() && 0 <= b < wave@.len() && a != b ==> #[trigger] wave@[a] != #[trigger] wave@[b],
                        forall|x: usize| wave@.contains(x) <==> ready_now@.contains(x),
                        forall|i: int| m <= i < wave@.len() ==> !flags@[#[trigger] wave@[i] as int],
                        forall|j: int| 0 <= j < n ==> (#[trigger] flags@[j] <==> (placed(wv, wv.len() as int, j)
                            || exists|i: int| 0 <= i < m && #[trigger] wave@[i] as int == j)),
                        count_unset(flags@) + m == c0,
                    decreases wave@.len() - m,
                {
                    let x = wave[m];
                    proof {
                        lemma_count_unset_set(flags@, x as int);
                    }
                    flags.set(x, true);
                    assert forall|j: int| 0 <= j < n implies (#[trigger] flags@[j] <==> (placed(wv, wv.len() as int, j)
                        || exists|i: int| 0 <= i < m + 1 && #[trigger] wave@[i] as int == j)) by {
                        if j == x {
                            assert(wave@[m as int] as int == j);
                        } else if exists|i: int| 0 <= i < m + 1 && #[trigger] wave@[i] as int == j {
                            let i = choose|i: int| 0 <= i < m + 1 && #[trigger] wave@[i] as int == j;
                            assert(i != m);
                        }
                    }
                    m = m + 1;
                }
                waves.push(wave);
                let ghost nv = waves_view(waves@);
                assert(nv =~= wv.push(wave@));
                assert forall|i: int| 0 <= i < waves@.len() implies #[trigger] is_wave(units, active, waves_view(waves@), i) by {
                    if i < wv.len() {
                        lemma_wave_prefix(units, active, wv, nv, i);
                    } else {
                        lemma_placed_prefix(wv, nv, wv.len() as int);
                        assert forall|k: int| (exists|x: int| 0 <= x < nv[i].len() && #[trigger] nv[i][x] as int == k)
                            <==> ready(units, active, nv, i, k) by {
                            if deps_placed(units, wv, i, k) {
                                assert forall|d: int| 0 <= d < units[k].dependencies@.len() implies placed(nv, i, #[trigger] units[k].dependencies@[d] as int) by {
                                    assert(placed(wv, i, units[k].dependencies@[d] as int));
                                }
                            }
                            if deps_placed(units, nv, i, k) {
                                assert forall|d: int| 0 <= d < units[k].dependencies@.len() implies placed(wv, i, #[trigger] units[k].dependencies@[d] as int) by {
                                    assert(placed(nv, i, units[k].dependencies@[d] as int));
                                }
                            }
                            if exists|x: int| 0 <= x < nv[i].len() && #[trigger] nv[i][x] as int == k {
                                let x = choose|x: int| 0 <= x < nv[i].len() && #[trigger] nv[i][x] as int == k;
                                assert(wave@.contains(wave@[x]));
                                assert(ready_now@.contains(wave@[x]));
                                let y = choose|y: int| 0 <= y < ready_now@.len() && ready_now@[y] == wave@[x];
                                assert(ready_now@[y] as int == k);
                            }
                            if ready(units, active, wv, i, k) {
                                let y = choose|y: int| 0 <= y < ready_now@.len() && #[trigger] ready_now@[y] as int == k;
                                assert(ready_now@.contains(ready_now@[y]));
                                assert(wave@.contains(ready_now@[y]));
                                let x = choose|x: int| 0 <= x < wave@.len() && wave@[x] == ready_now@[y];
                                assert(nv[i][x] as int == k);
                            }
                        }
                    }
                }
                assert forall|j: int| 0 <= j < n implies (#[trigger] flags@[j] <==> placed(nv, nv.len() as int, j)) by {
                    lemma_placed_prefix(wv, nv, wv.len() as int);
                    if placed(nv, nv.len() as int, j) {
                        let (a, b) = choose|a: int, b: int| 0 <= a < nv.len() && 0 <= b < nv[a].len() && #[trigger] nv[a][b] as int == j;
                        if a < wv.len() {
                            assert(placed(wv, wv.len() as int, j));
                        } else {
                            assert(wave@[b] as int == j);
                        }
                    }
                    if flags@[j] {
                        if placed(wv, wv.len() as int, j) {
                            let (a, b) = choose|a: int, b: int| 0 <= a < wv.len() && 0 <= b < wv[a].len() && #[trigger] wv[a][b] as int == j;
                            assert(nv[a][b] as int == j);
                        } else {
                            let i = choose|i: int| 0 <= i < wave@.len() && #[trigger] wave@[i] as int == j;
                            assert(nv[wv.len() as int][i] as int == j);
                        }
                    }
                }
            }
        }
        let ghost wv = waves_view(waves@);
        let mut k: usize = 0;
        while k < n
            invariant
                self.wf(),
                units == self.units(),
                active == self.active(),
                n == units.len(),
                flags@.len() == n,
                wv == waves_view(waves@),
                leveled(units, active, wv),
                forall|j: int| 0 <= j < n ==> (#[trigger] flags@[j] <==> placed(wv, wv.len() as int, j)),
                k <= n,
                forall|j: int| 0 <= j < k ==> #[trigger] bootable_at(units, active, j) ==> placed(wv, wv.len() as int, j),
            decreases n - k,
        {
            let bootable = self.active_units[k] && match &self.arena[k].kind {
                UnitKind::Service { .. } => true,
                UnitKind::Socket { .. } => true,
                UnitKind::Device { .. } => true,
                UnitKind::Mount { .. } => true,
                _ => false,
            };
            if bootable && !flags[k] {
                assert(!complete(units, active, wv)) by {
                    assert(bootable_at(units, active, k as int));
                }
                return Err(ForgeError::CycleDetected);
            }
            k = k + 1;
        }
        Ok(waves)
    }

    /// Lets boot go on past missing dependencies.
    pub fn set_boot_lenient(&mut self, lenient: bool)
        requires
            old(self).wf(),
        ensures
            final(self).wf(),
            final(self).lenient() == lenient,
            final(self).units() == old(self).units(),
            final(self).active() == old(self).active(),
            final(self).required() == old(self).required(),
            final(self).provides() == old(self).provides(),
            final(self).strict() == old(self).strict(),
            final(self).shutting() == old(self).shutting(),
            final(self).restarts() == old(self).restarts(),
            final(self).pids() == old(self).pids(),
            final(self).target() == old(self).target(),
            final(self).profile() == old(self).profile(),
            final(self).log_path() == old(self).log_path(),
            final(self).restart_history() == old(self).restart_history(),
            final(self).jobs() == old(self).jobs(),
    {
        self.boot_lenient = lenient;
    }

    /// What a well-formed manager keeps: no two units share a name, the active and
    /// required flags hold one entry per unit, and every tracked pid, queued restart
    /// and dependency names a unit.
    pub proof fn lemma_wf_shape(&self)
        requires
            self.wf(),
        ensures
            names_unique(self.units()),
            self.active().len() == self.units().len(),
            self.required().len() == self.units().len(),
            forall|p: u32| #[trigger] self.pids().contains_key(p) ==> self.pids()[p] < self.units().len(),
            forall|i: int| 0 <= i < self.restarts().len() ==> #[trigger] self.restarts()[i] < self.units().len(),
            forall|k: int, j: int| 0 <= k < self.units().len() && 0 <= j < self.units()[k].dependencies@.len()
                ==> #[trigger] self.units()[k].dependencies@[j] < self.units().len(),
    {
    }

    /// A pid the manager tracks belongs to one of its units.
    pub proof fn lemma_tracked_pid(&self, pid: u32)
        requires
            self.wf(),
            self.pids().contains_key(pid),
        ensures
            self.pids()[pid] < self.units().len(),
    {
    }

    /// Whether boot goes on past missing dependencies.
    pub fn boot_lenient(&self) -> (r: bool)
        ensures
            r == self.lenient(),
    {
        self.boot_lenient
    }

    /// When set, a failing required unit aborts the boot target.
    pub fn set_strict_boot(&mut self, strict: bool)
        requires
            old(self).wf(),
        ensures
            final(self).wf(),
            final(self).strict() == strict,
            final(self).units() == old(self).units(),
            final(self).active() == old(self).active(),
            final(self).required() == old(self).required(),
            final(self).provides() == old(self).provides(),
            final(self).lenient() == old(self).lenient(),
            final(self).shutting() == old(self).shutting(),
            final(self).restarts() == old(self).restarts(),
    {
        self.strict_boot = strict;
    }

    /// Whether a failing required unit aborts the boot target.
    pub fn strict_boot(&self) -> (r: bool)
        ensures
            r == self.strict(),
    {
        self.strict_boot
    }

    /// Marks the manager as shutting down: exiting services are not restarted.
    pub fn begin_shutdown(&mut self)
        requires
            old(self).wf(),
        ensures
            final(self).wf(),
            final(self).shutting(),
            final(self).units() == old(self).units(),
            final(self).active() == old(self).active(),
            final(self).required() == old(self).required(),
            final(self).provides() == old(self).provides(),
            final(self).lenient() == old(self).lenient(),
            final(self).strict() == old(self).strict(),
            final(self).restarts() == old(self).restarts(),
    {
        self.shutting_down = true;
    }

    /// Whether the manager is shutting down.
    pub fn is_shutting_down(&self) -> (r: bool)
        ensures
            r == self.shutting(),
    {
        self.shutting_down
    }

    /// The boot profile.
    pub fn boot_profile(&self) -> (r: &BootProfileReport)
        ensures
            *r == self.profile(),
    {
        &self.boot_profile
    }

    /// Replaces the boot profile.
    pub fn set_boot_profile(&mut self, profile: BootProfileReport)
        requires
            old(self).wf(),
        ensures
            final(self).wf(),
            final(self).profile() == profile,
            final(self).units() == old(self).units(),
            final(self).active() == old(self).active(),
            final(self).restarts() == old(self).restarts(),
    {
        self.boot_profile = profile;
    }

    /// The directory service logs go to.
    pub fn log_dir(&self) -> (r: &str)
        ensures
            r@ == self.log_path(),
    {
        self.log_dir.as_str()
    }

    /// Sends service logs to `dir`.
    pub fn set_log_dir(&mut self, dir: String)
        requires
            old(self).wf(),
        ensures
            final(self).wf(),
            final(self).log_path() == dir@,
            final(self).units() == old(self).units(),
            final(self).active() == old(self).active(),
    {
        self.log_dir = dir;
    }

    /// The target the manager boots.
    pub fn active_target(&self) -> (r: &str)
        ensures
            r@ == self.target(),
    {
        self.active_target.as_str()
    }

    /// The name of unit `key`.
    pub fn unit_name(&self, key: UnitKey) -> (r: &str)
        requires
            key < self.units().len(),
        ensures
            r@ == self.units()[key as int].name@,
    {
        self.arena[key].name.as_str()
    }

    /// The state of unit `key`.
    pub fn unit_state(&self, key: UnitKey) -> (r: UnitState)
        requires
            key < self.units().len(),
        ensures
            r == self.units()[key as int].state,
    {
        self.arena[key].state
    }

    /// Whether unit `key` is in the active set of the target.
    pub fn is_active(&self, key: UnitKey) -> (r: bool)
        requires
            self.wf(),
            key < self.units().len(),
        ensures
            r == self.active()[key as int],
    {
        self.active_units[key]
    }

    /// Whether unit `key` is required: an active unit reaches it over `requires` edges.
    pub fn is_required(&self, key: UnitKey) -> (r: bool)
        requires
            self.wf(),
            key < self.units().len(),
        ensures
            r == self.required()[key as int],
    {
        self.required_units[key]
    }

    /// The unit named `name` is in state `state`.
    fn unit_in_state(&self, name: &str, state: UnitState) -> (r: bool)
        requires
            self.wf(),
        ensures
            r == (lookup(self.units(), name@) matches Some(k) && self.units()[k].state == state),
    {
        match self.find_unit(name) {
            Some(k) => self.arena[k].state == state,
            None => false,
        }
    }

    /// The unit named `name` has failed.
    pub fn unit_failed(&self, name: &str) -> (r: bool)
        requires
            self.wf(),
        ensures
            r == (lookup(self.units(), name@) matches Some(k) && self.units()[k].state == UnitState::Failed),
    {
        self.unit_in_state(name, UnitState::Failed)
    }

    /// The unit named `name` is running.
    pub fn unit_running(&self, name: &str) -> (r: bool)
        requires
            self.wf(),
        ensures
            r == (lookup(self.units(), name@) matches Some(k) && self.units()[k].state == UnitState::Running),
    {
        self.unit_in_state(name, UnitState::Running)
    }

    /// What boot recovery looks at: the system bus is up (its service runs, or its
    /// socket `dbus_socket_present` exists), a getty runs, a critical unit failed.
    pub fn boot_health_signals(&self, dbus_socket_present: bool) -> (r: (bool, bool, bool))
        requires
            self.wf(),
        ensures
            r.0 == (self.running_spec("dbus"@) || dbus_socket_present),
            r.1 == (self.running_spec("getty-tty3"@) || self.running_spec("getty-console"@)),
            r.2 == (self.failed_spec("forge-early"@) || self.failed_spec("dbus"@)),
    {
        proof {
            reveal_strlit("dbus");
            reveal_strlit("getty-tty3");
            reveal_strlit("getty-console");
            reveal_strlit("forge-early");
        }
        let dbus_ok = self.unit_running("dbus") || dbus_socket_present;
        let getty_ok = self.unit_running("getty-tty3") || self.unit_running("getty-console");
        let critical_failed = self.unit_failed("forge-early") || self.unit_failed("dbus");
        (dbus_ok, getty_ok, critical_failed)
    }

    /// The unit named `name` is running.
    pub open spec fn running_spec(&self, name: Seq<char>) -> bool {
        lookup(self.units(), name) matches Some(k) && self.units()[k].state == UnitState::Running
    }

    /// The unit named `name` has failed.
    pub open spec fn failed_spec(&self, name: Seq<char>) -> bool {
        lookup(self.units(), name) matches Some(k) && self.units()[k].state == UnitState::Failed
    }

    /// One status line per active unit, in key order.
    pub fn status_snapshot(&self) -> (r: Vec<ServiceStatus>)
        requires
            self.wf(),
        ensures
            r@.map_values(|s: ServiceStatus| status_view(s)) == snapshot(self.units(), self.active()),
    {
        let ghost units = self.units();
        let mut r: Vec<ServiceStatus> = Vec::new();
        let mut k: usize = 0;
        while k < self.arena.len()
            invariant
                self.wf(),
                units == self.units(),
                k <= units.len(),
                r@.map_values(|s: ServiceStatus| status_view(s)) == snapshot(units.take(k as int), self.active()),
            decreases units.len() - k,
        {
            let ghost before = r@;
            assert(units.take(k + 1).drop_last() =~= units.take(k as int));
            if self.active_units[k] {
                let u = &self.arena[k];
                let pid = match &u.kind {
                    UnitKind::Service { pid, .. } => *pid,
                    _ => None,
                };
                let st = ServiceStatus {
                    name: str_to_string(u.name.as_str()),
                    kind: kind_label(&u.kind),
                    state: state_label(u.state),
                    pid,
                };
                r.push(st);
                assert(r@.map_values(|s: ServiceStatus| status_view(s)) =~= before.map_values(|s: ServiceStatus| status_view(s)).push(status_view(st)));
            }
            k = k + 1;
        }
        assert(units.take(units.len() as int) =~= units);
        r
    }

    /// The units as the D-Bus `ListUnits` call reports them.
    pub fn list_units_dbus(&self) -> (r: Vec<(String, String, String, String, u32, String, String, u32, bool, bool)>)
        requires
            self.wf(),
        ensures
            r@.len() == self.units().len(),
            forall|k: int| 0 <= k < r@.len() ==> {
                &&& (#[trigger] r@[k]).0@ == self.units()[k].name@ + ".service"@
                &&& r@[k].1@ == dbus_state(self.units()[k].state)
                &&& r@[k].2@ == dbus_state(self.units()[k].state)
                &&& r@[k].3@.len() == 0
                &&& r@[k].4 == 0
                &&& r@[k].5@ == self.target()
                &&& r@[k].6@ == self.units()[k].name@ + ".service"@
                &&& r@[k].7 == 0
                &&& !r@[k].8
                &&& !r@[k].9
            },
    {
        proof {
            reveal_strlit(".service");
        }
        let mut r: Vec<(String, String, String, String, u32, String, String, u32, bool, bool)> = Vec::new();
        let mut k: usize = 0;
        while k < self.arena.len()
            invariant
                self.wf(),
                k <= self.units().len(),
                r@.len() == k,
                forall|j: int| 0 <= j < k ==> {
                    &&& (#[trigger] r@[j]).0@ == self.units()[j].name@ + ".service"@
                    &&& r@[j].1@ == dbus_state(self.units()[j].state)
                    &&& r@[j].2@ == dbus_state(self.units()[j].state)
                    &&& r@[j].3@.len() == 0
                    &&& r@[j].4 == 0
                    &&& r@[j].5@ == self.target()
                    &&& r@[j].6@ == self.units()[j].name@ + ".service"@
                    &&& r@[j].7 == 0
                    &&& !r@[j].8
                    &&& !r@[j].9
                },
            decreases self.units().len() - k,
        {
            let u = &self.arena[k];
            let unit_file = concat(u.name.as_str(), ".service");
            let state = dbus_state_label(u.state);
            let state2 = dbus_state_label(u.state);
            r.push((
                unit_file,
                state,
                state2,
                String::new(),
                0u32,
                str_to_string(self.active_target.as_str()),
                concat(u.name.as_str(), ".service"),
                0u32,
                false,
                false,
            ));
            k = k + 1;
        }
        r
    }

    /// The services in stopping order: the boot waves backwards, services only.
    pub fn stop_order(&self) -> (r: Result<Vec<UnitKey>, ForgeError>)
        requires
            self.wf(),
        ensures
            r matches Ok(order) ==> exists|w: Seq<Seq<usize>>|
                leveled(self.units(), self.active(), w) && complete(self.units(), self.active(), w)
                && order@ == stop_sequence(self.units(), w),
            r matches Err(e) ==> e is CycleDetected && exists|w: Seq<Seq<usize>>|
                leveled(self.units(), self.active(), w) && !complete(self.units(), self.active(), w),
    {
        let waves = match self.boot_waves() {
            Ok(w) => w,
            Err(e) => {
                return Err(e);
            },
        };
        let ghost wv = waves_view(waves@);
        let mut order: Vec<usize> = Vec::new();
        let mut i: usize = waves.len();
        while i > 0
            invariant
                i <= waves@.len(),
                wv == waves_view(waves@),
                order@ == stop_sequence(self.units(), wv.skip(i as int)),
            decreases i,
        {
            i = i - 1;
            let wave = &waves[i];
            let ghost before = order@;
            let mut j: usize = 0;
            while j < wave.len()
                invariant
                    j <= wave@.len(),
                    wave@ == wv[i as int],
                    order@ == before + services_in(self.units(), wave@.take(j as int)),
                decreases wave@.len() - j,
            {
                let key = wave[j];
                assert(wave@.take(j + 1).drop_last() =~= wave@.take(j as int));
                if key < self.arena.len() {
                    let is_svc = match &self.arena[key].kind {
                        UnitKind::Service { .. } => true,
                        _ => false,
                    };
                    if is_svc {
                        order.push(key);
                    }
                }
                proof {
                    let t = wave@.take(j + 1);
                    assert(t.last() == key);
                    if key < self.units().len() && self.units()[key as int].kind is Service {
                        assert(order@ =~= before + services_in(self.units(), t));
                    } else {
                        assert(order@ =~= before + services_in(self.units(), t));
                    }
                }
                j = j + 1;
            }
            assert(wave@.take(wave@.len() as int) =~= wave@);
            assert(wv.skip(i as int) =~= seq![wv[i as int]] + wv.skip(i + 1));
            assert(wv.skip(i as int).drop_first() =~= wv.skip(i + 1));
        }
        assert(wv.skip(0) =~= wv);
        Ok(order)
    }

    /// Records that service `key` runs as `pid`.
    pub fn mark_started(&mut self, key: UnitKey, pid: u32)
        requires
            old(self).wf(),
            key < old(self).units().len(),
        ensures
            final(self).wf(),
            final(self).units() == old(self).units().update(key as int, Unit {
                state: UnitState::Running,
                kind: with_pid(old(self).units()[key as int].kind, Some(pid)),
                ..old(self).units()[key as int]
            }),
            final(self).pids() == old(self).pids().insert(pid, key),
            final(self).active() == old(self).active(),
            final(self).required() == old(self).required(),
            final(self).provides() == old(self).provides(),
            final(self).restarts() == old(self).restarts(),
            final(self).shutting() == old(self).shutting(),
    {
        let ghost before = self.arena@;
        let u = &mut self.arena[key];
        u.state = UnitState::Running;
        match &mut u.kind {
            UnitKind::Service { pid: p, .. } => {
                *p = Some(pid);
            },
            _ => {},
        }
        self.pid_index.insert(pid, key);
        assert(self.arena@ =~= before.update(key as int, Unit {
            state: UnitState::Running,
            kind: with_pid(before[key as int].kind, Some(pid)),
            ..before[key as int]
        }));
        assert forall|a: int, b: int|
            0 <= a < self.arena@.len() && 0 <= b < self.arena@.len() && a != b implies (#[trigger] self.arena@[a]).name@
                != (#[trigger] self.arena@[b]).name@ by {
            assert(before[a].name == self.arena@[a].name);
            assert(before[b].name == self.arena@[b].name);
        }
        assert forall|a: int, j: int|
            0 <= a < self.arena@.len() && 0 <= j < self.arena@[a].dependencies@.len()
                implies #[trigger] self.arena@[a].dependencies@[j] < self.arena@.len() by {
            assert(before[a].dependencies == self.arena@[a].dependencies);
        }
    }

    /// Sets the state of unit `key`.
    pub fn set_unit_state(&mut self, key: UnitKey, state: UnitState)
        requires
            old(self).wf(),
            key < old(self).units().len(),
        ensures
            final(self).wf(),
            final(self).units() == old(self).units().update(key as int, Unit { state: state, ..old(self).units()[key as int] }),
            final(self).pids() == old(self).pids(),
            final(self).active() == old(self).active(),
            final(self).required() == old(self).required(),
            final(self).provides() == old(self).provides(),
            final(self).restarts() == old(self).restarts(),
            final(self).shutting() == old(self).shutting(),
            final(self).same_settings(old(self)),
    {
        let ghost before = self.arena@;
        let u = &mut self.arena[key];
        u.state = state;
        assert(self.arena@ =~= before.update(key as int, Unit { state: state, ..before[key as int] }));
        assert forall|a: int, b: int|
            0 <= a < self.arena@.len() && 0 <= b < self.arena@.len() && a != b implies (#[trigger] self.arena@[a]).name@
                != (#[trigger] self.arena@[b]).name@ by {
            assert(before[a].name == self.arena@[a].name);
            assert(before[b].name == self.arena@[b].name);
        }
        assert forall|a: int, j: int|
            0 <= a < self.arena@.len() && 0 <= j < self.arena@[a].dependencies@.len()
                implies #[trigger] self.arena@[a].dependencies@[j] < self.arena@.len() by {
            assert(before[a].dependencies == self.arena@[a].dependencies);
        }
    }

    /// Handles the exit of child `pid` with wait status `status`. A child the
    /// manager does not know is left to the caller (`false`). Otherwise its unit
    /// records the status, becomes `Failed` when the child failed and `Dead`
    /// otherwise, a service forgets its pid, and the unit is queued for a restart
    /// when its policy asks for one and the manager is not shutting down.
    pub fn on_child_exit(&mut self, pid: u32, status: i32) -> (r: bool)
        requires
            old(self).wf(),
        ensures
            final(self).wf(),
            final(self).active() == old(self).active(),
            final(self).required() == old(self).required(),
            final(self).provides() == old(self).provides(),
            final(self).shutting() == old(self).shutting(),
            r == old(self).pids().contains_key(pid),
            !r ==> final(self).units() == old(self).units() && final(self).pids() == old(self).pids()
                && final(self).restarts() == old(self).restarts() && final(self).target() == old(self).target()
                && final(self).profile() == old(self).profile() && final(self).log_path() == old(self).log_path()
                && final(self).restart_history() == old(self).restart_history() && final(self).lenient() == old(self).lenient()
                && final(self).strict() == old(self).strict() && final(self).jobs() == old(self).jobs(),
            final(self).target() == old(self).target(),
            final(self).profile() == old(self).profile(),
            final(self).log_path() == old(self).log_path(),
            final(self).restart_history() == old(self).restart_history(),
            final(self).lenient() == old(self).lenient(),
            final(self).strict() == old(self).strict(),
            final(self).jobs() == old(self).jobs(),
            r ==> exit_recorded(*old(self), *final(self), pid, status),
    {
        let key = match self.pid_index.remove(&pid) {
            Some(k) => k,
            None => {
                return false;
            },
        };
        let failed = child_failed(status);
        let shutting = self.shutting_down;
        let ghost before = self.arena@;
        let u = &mut self.arena[key];
        u.last_exit = Some(status);
        let restart = match &mut u.kind {
            UnitKind::Service { restart, pid: p, .. } => {
                *p = None;
                if shutting {
                    false
                } else {
                    match restart {
                        RestartPolicy::Always => true,
                        RestartPolicy::OnFailure => failed,
                        RestartPolicy::No => false,
                    }
                }
            },
            _ => false,
        };
        u.state = if failed {
            UnitState::Failed
        } else {
            UnitState::Dead
        };
        assert(self.arena@ =~= before.update(key as int, Unit {
            state: if exit_failed(status) { UnitState::Failed } else { UnitState::Dead },
            kind: with_pid(before[key as int].kind, None),
            last_exit: Some(status),
            ..before[key as int]
        }));
        assert forall|a: int, b: int|
            0 <= a < self.arena@.len() && 0 <= b < self.arena@.len() && a != b implies (#[trigger] self.arena@[a]).name@
                != (#[trigger] self.arena@[b]).name@ by {
            assert(before[a].name == self.arena@[a].name);
            assert(before[b].name == self.arena@[b].name);
        }
        assert forall|a: int, j: int|
            0 <= a < self.arena@.len() && 0 <= j < self.arena@[a].dependencies@.len()
                implies #[trigger] self.arena@[a].dependencies@[j] < self.arena@.len() by {
            assert(before[a].dependencies == self.arena@[a].dependencies);
        }
        if restart {
            self.pending_restarts.push_back(key);
        }
        true
    }

    /// Times of the restarts of `name` kept in the window before `now_ms`; a restart
    /// is allowed, and recorded at `now_ms`, while fewer than `RESTART_BURST_MAX` are.
    pub fn restart_allowed(&mut self, name: &str, now_ms: u64) -> (r: bool)
        requires
            old(self).wf(),
        ensures
            final(self).wf(),
            final(self).units() == old(self).units(),
            final(self).active() == old(self).active(),
            final(self).required() == old(self).required(),
            final(self).provides() == old(self).provides(),
            final(self).pids() == old(self).pids(),
            final(self).restarts() == old(self).restarts(),
            final(self).shutting() == old(self).shutting(),
            r == (recent(history(old(self).restart_history(), name@), now_ms).len() < RESTART_BURST_MAX),
            history(final(self).restart_history(), name@) == if r {
                recent(history(old(self).restart_history(), name@), now_ms).push(now_ms)
            } else {
                recent(history(old(self).restart_history(), name@), now_ms)
            },
            forall|n: Seq<char>| n != name@ ==> #[trigger] history(final(self).restart_history(), n) == history(old(self).restart_history(), n),
    {
        let ghost h = self.restart_times@;
        let mut i: usize = 0;
        assert(h.skip(0) =~= h);
        while i < self.restart_times.len() && !str_eq(self.restart_times[i].0.as_str(), name)
            invariant
                h == self.restart_times@,
                i <= h.len(),
                forall|j: int| 0 <= j < i ==> (#[trigger] h[j]).0@ != name@,
                history(h, name@) == history(h.skip(i as int), name@),
            decreases h.len() - i,
        {
            assert(h.skip(i as int)[0] == h[i as int]);
            assert(h.skip(i as int).drop_first() =~= h.skip(i + 1));
            i = i + 1;
        }
        let allowed;
        if i < self.restart_times.len() {
            assert(h.skip(i as int)[0] == h[i as int]);
            let times = &self.restart_times[i].1;
            let ghost tv = times@;
            assert(history(h, name@) == tv);
            let mut kept: Vec<u64> = Vec::new();
            let mut j: usize = 0;
            while j < times.len()
                invariant
                    j <= tv.len(),
                    times@ == tv,
                    kept@ == recent(tv.take(j as int), now_ms),
                decreases tv.len() - j,
            {
                reveal(Seq::filter);
                assert(tv.take(j + 1).drop_last() =~= tv.take(j as int));
                let t = times[j];
                if t > now_ms || now_ms - t < RESTART_BURST_WINDOW_MS {
                    kept.push(t);
                }
                j = j + 1;
            }
            assert(tv.take(tv.len() as int) =~= tv);
            allowed = kept.len() < RESTART_BURST_MAX;
            if allowed {
                kept.push(now_ms);
            }
            let ghost kv = kept@;
            let entry = &mut self.restart_times[i];
            entry.1 = kept;
            proof {
                assert(self.restart_times@ =~= h.update(i as int, (h[i as int].0, self.restart_times@[i as int].1)));
                assert forall|n: Seq<char>| true implies #[trigger] history(self.restart_times@, n) == if n == name@ { kv } else { history(h, n) } by {
                    lemma_history_update(h, i as int, self.restart_times@[i as int].1, name@, n);
                }
            }
        } else {
            assert(h.skip(i as int) =~= Seq::<(String, Vec<u64>)>::empty());
            let mut kept: Vec<u64> = Vec::new();
            kept.push(now_ms);
            reveal(Seq::filter);
            assert(recent(Seq::<u64>::empty(), now_ms) =~= Seq::<u64>::empty());
            allowed = true;
            let e = (str_to_string(name), kept);
            let ghost ge = e;
            self.restart_times.push(e);
            proof {
                let e = ge;
                assert forall|n: Seq<char>| true implies #[trigger] history(self.restart_times@, n) == if n == name@ { e.1@ } else { history(h, n) } by {
                    lemma_history_push(h, e, n);
                }
                assert(e.1@ =~= Seq::<u64>::empty().push(now_ms));
            }
        }
        allowed
    }

    /// Queues unit `key` for a restart.
    pub fn queue_restart(&mut self, key: UnitKey)
        requires
            old(self).wf(),
            key < old(self).units().len(),
        ensures
            final(self).wf(),
            final(self).restarts() == old(self).restarts().push(key),
            final(self).units() == old(self).units(),
            final(self).active() == old(self).active(),
            final(self).pids() == old(self).pids(),
            final(self).restart_history() == old(self).restart_history(),
    {
        self.pending_restarts.push_back(key);
    }

    /// The next queued unit whose restart the burst limit allows, at `now_ms`; queued
    /// units it holds back are dropped from the queue, as the restart loop drops them.
    pub fn next_restart(&mut self, now_ms: u64) -> (r: Option<UnitKey>)
        requires
            old(self).wf(),
        ensures
            final(self).wf(),
            final(self).units() == old(self).units(),
            final(self).active() == old(self).active(),
            final(self).pids() == old(self).pids(),
            final(self).restarts().len() <= old(self).restarts().len(),
            final(self).restarts() == old(self).restarts().skip(old(self).restarts().len() - final(self).restarts().len()),
            r matches Some(k) ==> k < old(self).units().len() && old(self).restarts().len() > final(self).restarts().len()
                && old(self).restarts()[old(self).restarts().len() - final(self).restarts().len() - 1] == k,
            r is None ==> final(self).restarts().len() == 0,
            ({
                let scan = restart_scan(old(self).units(), old(self).restarts(), histories(old(self).restart_history()), now_ms);
                &&& r == scan.1
                &&& final(self).restarts() == old(self).restarts().skip(scan.0 as int)
                &&& forall|n: Seq<char>| #[trigger] history(final(self).restart_history(), n) == (scan.2)(n)
            }),
    {
        let ghost q0 = self.pending_restarts@;
        let ghost units = self.units();
        let ghost full = restart_scan(units, q0, histories(self.restart_times@), now_ms);
        while self.pending_restarts.len() > 0
            invariant
                self.wf(),
                self.units() == old(self).units(),
                units == old(self).units(),
                self.active() == old(self).active(),
                self.pids() == old(self).pids(),
                q0 == old(self).restarts(),
                self.restarts().len() <= q0.len(),
                self.restarts() == q0.skip(q0.len() - self.restarts().len()),
                full == restart_scan(units, q0, histories(old(self).restart_history()), now_ms),
                ({
                    let cur = restart_scan(units, self.restarts(), histories(self.restart_history()), now_ms);
                    &&& full.0 == cur.0 + (q0.len() - self.restarts().len())
                    &&& full.1 == cur.1
                    &&& full.2 == cur.2
                }),
            decreases self.pending_restarts@.len(),
        {
            let ghost before = self.pending_restarts@;
            let ghost h0 = self.restart_times@;
            let key = match self.pending_restarts.pop_front() {
                Some(k) => k,
                None => {
                    return None;
                },
            };
            assert(self.pending_restarts@ =~= q0.skip(q0.len() - self.restarts().len()));
            assert(before[0] == key);
            assert(before.drop_first() =~= self.pending_restarts@);
            let name = str_to_string(self.arena[key].name.as_str());
            let ghost nm = units[key as int].name@;
            assert(name@ == nm);
            let ok = self.restart_allowed(name.as_str(), now_ms);
            proof {
                assert(histories(self.restart_times@) =~= checked(histories(h0), nm, now_ms));
            }
            if ok {
                assert(self.restarts() =~= q0.skip(full.0 as int));
                return Some(key);
            }
        }
        assert(self.restarts().len() == 0);
        assert(self.restarts() =~= q0.skip(full.0 as int));
        None
    }

    /// The timers still to fire: the unit each starts and its delay after boot in
    /// microseconds.
    pub fn pending_timer_jobs(&self) -> (r: Vec<(String, u64)>)
        requires
            self.wf(),
        ensures
            r@.map_values(|p: (String, u64)| (p.0@, p.1)) == timer_jobs(self.units(), self.active()),
    {
        let ghost units = self.units();
        let mut r: Vec<(String, u64)> = Vec::new();
        let mut k: usize = 0;
        while k < self.arena.len()
            invariant
                self.wf(),
                units == self.units(),
                k <= units.len(),
                r@.map_values(|p: (String, u64)| (p.0@, p.1)) == timer_jobs(units.take(k as int), self.active()),
            decreases units.len() - k,
        {
            let ghost before = r@;
            assert(units.take(k + 1).drop_last() =~= units.take(k as int));
            match &self.arena[k].kind {
                UnitKind::Timer { unit, on_boot_usec, fired, .. } => {
                    if self.active_units[k] && !*fired {
                        match on_boot_usec {
                            Some(d) => {
                                r.push((str_to_string(unit.as_str()), *d));
                                assert(r@.map_values(|p: (String, u64)| (p.0@, p.1)) =~= before.map_values(
                                    |p: (String, u64)| (p.0@, p.1)).push((unit@, *d)));
                            },
                            None => {},
                        }
                    }
                },
                _ => {},
            }
            k = k + 1;
        }
        assert(units.take(units.len() as int) =~= units);
        r
    }

    /// Marks the timer named `timer_unit` as fired.
    pub fn mark_timer_fired(&mut self, timer_unit: &str)
        requires
            old(self).wf(),
        ensures
            final(self).wf(),
            final(self).same_settings(old(self)),
            final(self).active() == old(self).active(),
            final(self).required() == old(self).required(),
            final(self).provides() == old(self).provides(),
            match lookup(old(self).units(), timer_unit@) {
                Some(k) => final(self).units() == old(self).units().update(k, Unit {
                    kind: fired_kind(old(self).units()[k].kind),
                    ..old(self).units()[k]
                }),
                None => final(self).units() == old(self).units(),
            },
    {
        match self.find_unit(timer_unit) {
            Some(key) => {
                let ghost before = self.arena@;
                let u = &mut self.arena[key];
                match &mut u.kind {
                    UnitKind::Timer { fired, .. } => {
                        *fired = true;
                    },
                    _ => {},
                }
                assert(self.arena@ =~= before.update(key as int, Unit { kind: fired_kind(before[key as int].kind), ..before[key as int] }));
                assert forall|a: int, b: int|
                    0 <= a < self.arena@.len() && 0 <= b < self.arena@.len() && a != b implies (#[trigger] self.arena@[a]).name@
                        != (#[trigger] self.arena@[b]).name@ by {
                    assert(before[a].name == self.arena@[a].name);
                    assert(before[b].name == self.arena@[b].name);
                }
                assert forall|a: int, j: int|
                    0 <= a < self.arena@.len() && 0 <= j < self.arena@[a].dependencies@.len()
                        implies #[trigger] self.arena@[a].dependencies@[j] < self.arena@.len() by {
                    assert(before[a].dependencies == self.arena@[a].dependencies);
                }
            },
            None => {},
        }
    }

    /// The name of the first timer that starts `service`.
    pub fn timer_for_service(&self, service: &str) -> (r: Option<String>)
        requires
            self.wf(),
        ensures
            match timer_of(self.units(), service@) {
                Some(n) => r matches Some(x) && x@ == n,
                None => r is None,
            },
    {
        let ghost units = self.units();
        let mut k: usize = 0;
        assert(units.skip(0) =~= units);
        while k < self.arena.len()
            invariant
                self.wf(),
                units == self.units(),
                k <= units.len(),
                timer_of(units, service@) == timer_of(units.skip(k as int), service@),
            decreases units.len() - k,
        {
            assert(units.skip(k as int)[0] == units[k as int]);
            assert(units.skip(k as int).drop_first() =~= units.skip(k + 1));
            match &self.arena[k].kind {
                UnitKind::Timer { unit, .. } => {
                    if str_eq(unit.as_str(), service) {
                        return Some(str_to_string(self.arena[k].name.as_str()));
                    }
                },
                _ => {},
            }
            k = k + 1;
        }
        None
    }

    /// The device units: the device's file name (`"unknown"` without one) and its service.
    pub fn device_units(&self) -> (r: Vec<(String, String)>)
        requires
            self.wf(),
        ensures
            r@.map_values(|p: (String, String)| (p.0@, p.1@)) == device_list(self.units()),
    {
        proof {
            reveal_strlit("unknown");
        }
        let ghost units = self.units();
        let mut r: Vec<(String, String)> = Vec::new();
        let mut k: usize = 0;
        while k < self.arena.len()
            invariant
                self.wf(),
                units == self.units(),
                k <= units.len(),
                r@.map_values(|p: (String, String)| (p.0@, p.1@)) == device_list(units.take(k as int)),
            decreases units.len() - k,
        {
            let ghost before = r@;
            assert(units.take(k + 1).drop_last() =~= units.take(k as int));
            match &self.arena[k].kind {
                UnitKind::Device { path, service, .. } => {
                    let kernel = match path_file_name(path.as_str()) {
                        Some(n) => n,
                        None => "unknown".to_string(),
                    };
                    let ghost kv = kernel@;
                    r.push((kernel, str_to_string(service.as_str())));
                    assert(r@.map_values(|p: (String, String)| (p.0@, p.1@)) =~= before.map_values(
                        |p: (String, String)| (p.0@, p.1@)).push((kv, service@)));
                },
                _ => {},
            }
            k = k + 1;
        }
        assert(units.take(units.len() as int) =~= units);
        r
    }

    /// The device units not activated yet: key, device path and service.
    pub fn pending_device_units(&self) -> (r: Vec<(UnitKey, String, String)>)
        requires
            self.wf(),
        ensures
            r@.map_values(|p: (UnitKey, String, String)| (p.0, p.1@, p.2@)) == pending_devices(self.units()),
    {
        let ghost units = self.units();
        let mut r: Vec<(UnitKey, String, String)> = Vec::new();
        let mut k: usize = 0;
        while k < self.arena.len()
            invariant
                self.wf(),
                units == self.units(),
                k <= units.len(),
                r@.map_values(|p: (UnitKey, String, String)| (p.0, p.1@, p.2@)) == pending_devices(units.take(k as int)),
            decreases units.len() - k,
        {
            let ghost before = r@;
            assert(units.take(k + 1).drop_last() =~= units.take(k as int));
            match &self.arena[k].kind {
                UnitKind::Device { path, service, activated, .. } => {
                    if !*activated {
                        r.push((k, str_to_string(path.as_str()), str_to_string(service.as_str())));
                        assert(r@.map_values(|p: (UnitKey, String, String)| (p.0, p.1@, p.2@)) =~= before.map_values(
                            |p: (UnitKey, String, String)| (p.0, p.1@, p.2@)).push((k, path@, service@)));
                    }
                },
                _ => {},
            }
            k = k + 1;
        }
        assert(units.take(units.len() as int) =~= units);
        r
    }

    /// Marks device unit `key` activated and gives the service to start now; a unit
    /// that is no device, or already activated, gives nothing.
    pub fn activate_device_by_key(&mut self, key: UnitKey) -> (r: Option<String>)
        requires
            old(self).wf(),
            key < old(self).units().len(),
        ensures
            final(self).wf(),
            final(self).same_settings(old(self)),
            final(self).active() == old(self).active(),
            final(self).required() == old(self).required(),
            final(self).provides() == old(self).provides(),
            match old(self).units()[key as int].kind {
                UnitKind::Device { service, activated, .. } => if activated {
                    r is None && final(self).units() == old(self).units()
                } else {
                    r matches Some(s) && s@ == service@ && final(self).units() == old(self).units().update(key as int, Unit {
                        kind: activated_kind(old(self).units()[key as int].kind),
                        ..old(self).units()[key as int]
                    })
                },
                _ => r is None && final(self).units() == old(self).units(),
            },
    {
        let ghost before = self.arena@;
        let u = &mut self.arena[key];
        let r = match &mut u.kind {
            UnitKind::Device { activated, service, .. } => {
                if *activated {
                    None
                } else {
                    *activated = true;
                    Some(str_to_string(service.as_str()))
                }
            },
            _ => None,
        };
        proof {
            if r is Some {
                assert(self.arena@ =~= before.update(key as int, Unit { kind: activated_kind(before[key as int].kind), ..before[key as int] }));
            } else {
                assert(self.arena@ =~= before);
            }
        }
        assert forall|a: int, b: int|
            0 <= a < self.arena@.len() && 0 <= b < self.arena@.len() && a != b implies (#[trigger] self.arena@[a]).name@
                != (#[trigger] self.arena@[b]).name@ by {
            assert(before[a].name == self.arena@[a].name);
            assert(before[b].name == self.arena@[b].name);
        }
        assert forall|a: int, j: int|
            0 <= a < self.arena@.len() && 0 <= j < self.arena@[a].dependencies@.len()
                implies #[trigger] self.arena@[a].dependencies@[j] < self.arena@.len() by {
            assert(before[a].dependencies == self.arena@[a].dependencies);
        }
        r
    }

    /// Records a notify message of service `key` received at `now_usec`: a
    /// `WATCHDOG_USEC=` sets its watchdog interval, a `WATCHDOG=1` its last ping.
    pub fn update_watchdog(&mut self, key: UnitKey, parsed: &NotifyMessage, now_usec: u64)
        requires
            old(self).wf(),
            key < old(self).units().len(),
        ensures
            final(self).wf(),
            final(self).same_settings(old(self)),
            final(self).active() == old(self).active(),
            final(self).required() == old(self).required(),
            final(self).provides() == old(self).provides(),
            match old(self).units()[key as int].kind {
                UnitKind::Service { watchdog_usec, last_watchdog, .. } => final(self).units() == old(self).units().update(key as int, Unit {
                    kind: with_watchdog(
                        old(self).units()[key as int].kind,
                        if parsed.watchdog_usec is Some { parsed.watchdog_usec } else { watchdog_usec },
                        if parsed.watchdog { Some(now_usec) } else { last_watchdog },
                    ),
                    ..old(self).units()[key as int]
                }),
                _ => final(self).units() == old(self).units(),
            },
    {
        let ghost before = self.arena@;
        let u = &mut self.arena[key];
        match &mut u.kind {
            UnitKind::Service { watchdog_usec, last_watchdog, .. } => {
                match parsed.watchdog_usec {
                    Some(us) => {
                        *watchdog_usec = Some(us);
                    },
                    None => {},
                }
                if parsed.watchdog {
                    *last_watchdog = Some(now_usec);
                }
            },
            _ => {},
        }
        proof {
            match before[key as int].kind {
                UnitKind::Service { watchdog_usec, last_watchdog, .. } => {
                    assert(self.arena@ =~= before.update(key as int, Unit {
                        kind: with_watchdog(
                            before[key as int].kind,
                            if parsed.watchdog_usec is Some { parsed.watchdog_usec } else { watchdog_usec },
                            if parsed.watchdog { Some(now_usec) } else { last_watchdog },
                        ),
                        ..before[key as int]
                    }));
                },
                _ => {
                    assert(self.arena@ =~= before);
                },
            }
        }
        assert forall|a: int, b: int|
            0 <= a < self.arena@.len() && 0 <= b < self.arena@.len() && a != b implies (#[trigger] self.arena@[a]).name@
                != (#[trigger] self.arena@[b]).name@ by {
            assert(before[a].name == self.arena@[a].name);
            assert(before[b].name == self.arena@[b].name);
        }
        assert forall|a: int, j: int|
            0 <= a < self.arena@.len() && 0 <= j < self.arena@[a].dependencies@.len()
                implies #[trigger] self.arena@[a].dependencies@[j] < self.arena@.len() by {
            assert(before[a].dependencies == self.arena@[a].dependencies);
        }
    }

    /// The running services whose watchdog deadline passed before `now_usec`.
    pub fn overdue_watchdogs(&self, now_usec: u64) -> (r: Vec<UnitKey>)
        requires
            self.wf(),
        ensures
            r@ == overdue(self.units(), now_usec),
    {
        let ghost units = self.units();
        let mut r: Vec<UnitKey> = Vec::new();
        let mut k: usize = 0;
        while k < self.arena.len()
            invariant
                self.wf(),
                units == self.units(),
                k <= units.len(),
                r@ == overdue(units.take(k as int), now_usec),
            decreases units.len() - k,
        {
            assert(units.take(k + 1).drop_last() =~= units.take(k as int));
            match &self.arena[k].kind {
                UnitKind::Service { pid: Some(_), watchdog_usec: Some(us), last_watchdog: Some(last), .. } => {
                    if now_usec > *last && now_usec - *last > *us {
                        r.push(k);
                    }
                },
                _ => {},
            }
            k = k + 1;
        }
        assert(units.take(units.len() as int) =~= units);
        r
    }

    /// Queues a job for `unit`, created at `now_ms`.
    pub fn enqueue_job(&mut self, unit: &str, mode: &str, now_ms: u128) -> (r: Job)
        requires
            old(self).wf(),
        ensures
            final(self).wf(),
            final(self).units() == old(self).units(),
            final(self).active() == old(self).active(),
            final(self).same_settings(old(self)),
            r.id == old(self).jobs().next(),
            r.unit@ == unit@,
            r.mode@ == mode@,
            final(self).jobs().active_view() == old(self).jobs().active_view().push(r),
            final(self).jobs().history_view() == old(self).jobs().history_view(),
            final(self).jobs().next() == old(self).jobs().next().wrapping_add(1),
    {
        self.job_queue.enqueue(unit, mode, now_ms)
    }

    /// Finishes job `id` with `result`.
    pub fn finish_job(&mut self, id: u32, result: JobResult) -> (r: Option<Job>)
        requires
            old(self).wf(),
        ensures
            final(self).wf(),
            final(self).units() == old(self).units(),
            final(self).active() == old(self).active(),
            final(self).same_settings(old(self)),
            r is Some <==> crate::jobs::position_of(old(self).jobs().active_view(), id) is Some,
            r matches Some(j) ==> j.id == id && j.result == Some(result),
    {
        proof {
            crate::jobs::lemma_position_of(self.jobs().active_view(), id);
        }
        self.job_queue.finish(id, result)
    }
}

/// What stopping or reloading a running service takes: running the command its unit
/// configured, or sending a signal to its process.
#[derive(Debug)]
pub enum KillAction {
    RunCommand { program: String, args: Vec<String> },
    SendSignal { pid: u32, signal: i32 },
}

/// `a` is the action for a service with process `pid` whose unit configured the
/// command `cmd` and the signal name `sig`; `default` is sent when it named none.
pub open spec fn kill_action(cmd: Option<(String, Vec<String>)>, sig: Option<String>, pid: u32, default: i32, a: KillAction) -> bool {
    match cmd {
        Some(c) => a matches KillAction::RunCommand { program, args } && program@ == c.0@ && args@ == c.1@,
        None => a == KillAction::SendSignal {
            pid: pid,
            signal: match sig {
                Some(s) => crate::signals::signal_of(s@),
                None => default,
            },
        },
    }
}

/// A copy of `v`.
pub fn copy_strings(v: &Vec<String>) -> (r: Vec<String>)
    ensures
        r@ == v@,
{
    let mut r: Vec<String> = Vec::new();
    let mut i: usize = 0;
    while i < v.len()
        invariant
            i <= v@.len(),
            r@ == v@.take(i as int),
        decreases v@.len() - i,
    {
        r.push(v[i].clone());
        i = i + 1;
        assert(r@ =~= v@.take(i as int));
    }
    assert(v@.take(v@.len() as int) =~= v@);
    r
}

/// A copy of a command: its program and arguments.
fn copy_command(c: &(String, Vec<String>)) -> (r: (String, Vec<String>))
    ensures
        r.0 == c.0,
        r.1@ == c.1@,
{
    (c.0.clone(), copy_strings(&c.1))
}

/// The action for a service with process `pid`: its command if it has one, else the
/// signal its unit names, else `default`.
fn kill_action_of(cmd: &Option<(String, Vec<String>)>, sig: &Option<String>, pid: u32, default: i32) -> (r: KillAction)
    ensures
        kill_action(*cmd, *sig, pid, default, r),
{
    match cmd {
        Some(c) => {
            let (program, args) = copy_command(c);
            KillAction::RunCommand { program, args }
        },
        None => {
            let signal = match sig {
                Some(s) => crate::signals::parse_signal(s.as_str()),
                None => default,
            };
            KillAction::SendSignal { pid, signal }
        },
    }
}

impl ForgeState {
    /// The service `name` resolves to, by unit name or virtual name; `NotFound` when
    /// nothing answers to it, `NotService` when what does is not a service.
    pub fn service_key(&self, name: &str) -> (r: Result<UnitKey, ForgeError>)
        requires
            self.wf(),
        ensures
            match self.resolve(name@) {
                None => r matches Err(ForgeError::NotFound(n)) && n@ == name@,
                Some(k) => if self.units()[k].kind is Service {
                    r matches Ok(x) && x as int == k
                } else {
                    r matches Err(ForgeError::NotService(n)) && n@ == name@
                },
            },
    {
        match self.resolve_name(name) {
            None => Err(ForgeError::NotFound(str_to_string(name))),
            Some(k) => match &self.arena[k].kind {
                UnitKind::Service { .. } => Ok(k),
                _ => Err(ForgeError::NotService(str_to_string(name))),
            },
        }
    }

    /// The unit `name` resolves to, by unit name or virtual name; `NotFound` when
    /// nothing answers to it.
    pub fn unit_key(&self, name: &str) -> (r: Result<UnitKey, ForgeError>)
        requires
            self.wf(),
        ensures
            match self.resolve(name@) {
                None => r matches Err(ForgeError::NotFound(n)) && n@ == name@,
                Some(k) => r matches Ok(x) && x as int == k,
            },
    {
        match self.resolve_name(name) {
            None => Err(ForgeError::NotFound(str_to_string(name))),
            Some(k) => Ok(k),
        }
    }

    /// Marks unit `key` as part of what the manager runs (a start by name does so).
    pub fn activate_unit(&mut self, key: UnitKey)
        requires
            old(self).wf(),
            key < old(self).units().len(),
        ensures
            final(self).wf(),
            final(self).active() == old(self).active().update(key as int, true),
            final(self).units() == old(self).units(),
            final(self).required() == old(self).required(),
            final(self).provides() == old(self).provides(),
            final(self).same_settings(old(self)),
    {
        self.active_units.set(key, true);
    }

    /// How to reload the service `name` without stopping it: its reload command, or
    /// its reload signal (`SIGHUP` unless its unit names another) sent to its process.
    /// Fails as `service_key` does, and with `NotRunning` when the service has no process.
    pub fn reload_action(&self, name: &str) -> (r: Result<KillAction, ForgeError>)
        requires
            self.wf(),
        ensures
            match self.resolve(name@) {
                None => r matches Err(ForgeError::NotFound(n)) && n@ == name@,
                Some(k) => match self.units()[k].kind {
                    UnitKind::Service { pid, reload_cmd, reload_signal, .. } => match pid {
                        None => r matches Err(ForgeError::NotRunning(n)) && n@ == self.units()[k].name@,
                        Some(p) => r matches Ok(a) && kill_action(reload_cmd, reload_signal, p, crate::signals::SIGHUP_NUMBER, a),
                    },
                    _ => r matches Err(ForgeError::NotService(n)) && n@ == name@,
                },
            },
    {
        let sk = self.service_key(name);
        let k = match sk {
            Ok(k) => k,
            Err(e) => {
                return Err(e);
            },
        };
        match &self.arena[k].kind {
            UnitKind::Service { pid, reload_cmd, reload_signal, .. } => match pid {
                None => Err(ForgeError::NotRunning(self.arena[k].name.clone())),
                Some(p) => Ok(kill_action_of(reload_cmd, reload_signal, *p, crate::signals::SIGHUP_NUMBER)),
            },
            _ => Err(ForgeError::NotService(str_to_string(name))),
        }
    }

    /// Begins stopping unit `key`: a service with a process enters `Stopping`, and the
    /// result says how to stop it: its stop command, or its stop signal (`default`
    /// unless its unit names another). Anything else is `NotRunning` and is left alone.
    pub fn begin_stop(&mut self, key: UnitKey, default: i32) -> (r: Result<KillAction, ForgeError>)
        requires
            old(self).wf(),
            key < old(self).units().len(),
        ensures
            final(self).wf(),
            final(self).active() == old(self).active(),
            final(self).required() == old(self).required(),
            final(self).provides() == old(self).provides(),
            final(self).same_settings(old(self)),
            match old(self).units()[key as int].kind {
                UnitKind::Service { pid: Some(p), stop_cmd, stop_signal, .. } => {
                    &&& r matches Ok(a) && kill_action(stop_cmd, stop_signal, p, default, a)
                    &&& final(self).units() == old(self).units().update(key as int, Unit {
                        state: UnitState::Stopping,
                        ..old(self).units()[key as int]
                    })
                },
                _ => r matches Err(ForgeError::NotRunning(n)) && n@ == old(self).units()[key as int].name@
                    && final(self).units() == old(self).units(),
            },
    {
        let action = match &self.arena[key].kind {
            UnitKind::Service { pid: Some(p), stop_cmd, stop_signal, .. } => kill_action_of(stop_cmd, stop_signal, *p, default),
            _ => {
                return Err(ForgeError::NotRunning(self.arena[key].name.clone()));
            },
        };
        self.set_unit_state(key, UnitState::Stopping);
        Ok(action)
    }

    /// The target unit `name` names, to switch to; `NotFound` when there is no unit of
    /// that name, `InvalidOperation` when it is not a target.
    pub fn target_key(&self, name: &str) -> (r: Result<UnitKey, ForgeError>)
        requires
            self.wf(),
        ensures
            match lookup(self.units(), name@) {
                None => r matches Err(ForgeError::NotFound(n)) && n@ == name@,
                Some(k) => if self.units()[k].kind is Target {
                    r matches Ok(x) && x as int == k
                } else {
                    r matches Err(ForgeError::InvalidOperation(m)) && m@ == "'"@ + name@ + "' is not a target unit"@
                },
            },
    {
        match self.find_unit(name) {
            None => Err(ForgeError::NotFound(str_to_string(name))),
            Some(k) => match &self.arena[k].kind {
                UnitKind::Target { .. } => Ok(k),
                _ => Err(ForgeError::InvalidOperation(concat3("'", name, "' is not a target unit"))),
            },
        }
    }

    /// Makes `name` the target the manager boots, in its state and in its boot profile.
    pub fn set_active_target(&mut self, name: &str)
        requires
            old(self).wf(),
        ensures
            final(self).wf(),
            final(self).target() == name@,
            final(self).profile() == (BootProfileReport { active_target: final(self).profile().active_target, ..old(self).profile() }),
            final(self).profile().active_target@ == name@,
            final(self).units() == old(self).units(),
            final(self).active() == old(self).active(),
            final(self).required() == old(self).required(),
            final(self).provides() == old(self).provides(),
            final(self).pids() == old(self).pids(),
            final(self).restarts() == old(self).restarts(),
            final(self).shutting() == old(self).shutting(),
            final(self).lenient() == old(self).lenient(),
            final(self).strict() == old(self).strict(),
    {
        self.active_target = str_to_string(name);
        self.boot_profile.active_target = str_to_string(name);
    }
}

/// What starting a service needs, taken from its unit.
#[derive(Debug)]
pub struct LaunchPlan {
    pub name: String,
    pub exec_path: String,
    pub args: Vec<String>,
    pub sockets: Vec<String>,
    pub cgroup: ServiceLimits,
    pub service_type: ServiceType,
    pub environment: Vec<(String, String)>,
    pub exec_start_pre: Option<(String, Vec<String>)>,
    pub bus_name: Option<String>,
    pub sandbox: SandboxConfig,
    pub user: Option<String>,
    pub group: Option<String>,
    pub working_directory: Option<String>,
    pub timeout_secs: Option<u64>,
    pub pidfile: Option<String>,
}

/// Two optional commands are the same program with the same arguments.
pub open spec fn same_command(a: Option<(String, Vec<String>)>, b: Option<(String, Vec<String>)>) -> bool {
    match a {
        Some(x) => b matches Some(y) && x.0 == y.0 && x.1@ == y.1@,
        None => b is None,
    }
}

/// `p` holds what unit `u`, a service, configures for its start.
pub open spec fn launch_plan(u: Unit, p: LaunchPlan) -> bool {
    match u.kind {
        UnitKind::Service {
            exec_path,
            args,
            sockets,
            cgroup,
            service_type,
            environment,
            exec_start_pre,
            bus_name,
            sandbox,
            user,
            group,
            working_directory,
            timeout_secs,
            pidfile,
            ..
        } => {
            &&& p.name == u.name
            &&& p.exec_path == exec_path
            &&& p.args@ == args@
            &&& p.sockets@ == sockets@
            &&& p.cgroup == cgroup
            &&& p.service_type == service_type
            &&& p.environment@ == environment@
            &&& same_command(p.exec_start_pre, exec_start_pre)
            &&& p.bus_name == bus_name
            &&& p.sandbox == sandbox
            &&& p.user == user
            &&& p.group == group
            &&& p.working_directory == working_directory
            &&& p.timeout_secs == timeout_secs
            &&& p.pidfile == pidfile
        },
        _ => false,
    }
}

fn copy_opt_string(o: &Option<String>) -> (r: Option<String>)
    ensures
        r == *o,
{
    match o {
        Some(s) => Some(s.clone()),
        None => None,
    }
}

fn copy_pairs(v: &Vec<(String, String)>) -> (r: Vec<(String, String)>)
    ensures
        r@ == v@,
{
    let mut r: Vec<(String, String)> = Vec::new();
    let mut i: usize = 0;
    while i < v.len()
        invariant
            i <= v@.len(),
            r@ == v@.take(i as int),
        decreases v@.len() - i,
    {
        r.push((v[i].0.clone(), v[i].1.clone()));
        i = i + 1;
        assert(r@ =~= v@.take(i as int));
    }
    assert(v@.take(v@.len() as int) =~= v@);
    r
}

fn copy_opt_command(o: &Option<(String, Vec<String>)>) -> (r: Option<(String, Vec<String>)>)
    ensures
        same_command(r, *o),
{
    match o {
        Some(c) => Some(copy_command(c)),
        None => None,
    }
}

/// Why the manager, when it is not PID 1, does not start `name` at all.
pub open spec fn skip_reason(name: Seq<char>) -> Option<Seq<char>> {
    if name == "display-manager"@ || name == "forge-desktop"@ {
        Some("will not start desktop session on a live system (logs you out)"@)
    } else if name == "getty-tty3"@ || name == "getty-console"@ {
        Some("will not attach agetty while desktop is active"@)
    } else if name == "network-setup"@ {
        Some("defer network bring-up to host NetworkManager"@)
    } else if name == "udev-trigger"@ {
        Some("will not re-trigger udev on a live system"@)
    } else if name == "udev-settle"@ {
        Some("will not settle udev on a live system"@)
    } else if name == "forge-early"@ {
        Some("forge-early uses pkill — use forge-mock-boot.sh for safe simulation"@)
    } else if name == "user-sessions"@ {
        Some("systemd-user-sessions mutates host login policy"@)
    } else if name == "NetworkManager"@ {
        Some("will not start a second NetworkManager on a live system"@)
    } else {
        None
    }
}

/// How the manager, when it is not PID 1, tells that the host already runs a service.
#[derive(Debug)]
pub enum HostCheck {
    /// The socket at this path exists.
    SocketExists(String),
    /// A process of one of these names runs.
    ProcessRunning(Vec<String>),
}

/// The check for `name` and what the journal says when it succeeds: `Some((socket,
/// processes, detail))`, where a socket path is checked when there is one and the
/// process names otherwise.
pub open spec fn host_check_of(name: Seq<char>) -> Option<(Option<Seq<char>>, Seq<Seq<char>>, Seq<char>)> {
    if name == "dbus"@ {
        Some((Some("/run/dbus/system_bus_socket"@), Seq::empty(),
            "using host system D-Bus (not PID 1 — skip starting dbus-daemon)"@))
    } else if name == "NetworkManager"@ {
        Some((None, seq!["NetworkManager"@], "using host NetworkManager (not PID 1 — skip second instance)"@))
    } else if name == "udev"@ {
        Some((None, seq!["systemd-udevd"@, "udevd"@], "using host udevd (not PID 1 — skip second instance)"@))
    } else if name == "logind"@ {
        Some((None, seq!["systemd-logind"@, "elogind"@],
            "using host logind (elogind or systemd-logind) (not PID 1 — skip second instance)"@))
    } else if name == "polkit"@ {
        Some((None, seq!["polkitd"@], "using host polkitd (not PID 1 — skip second instance)"@))
    } else if name == "accounts-daemon"@ {
        Some((None, seq!["accounts-daemon"@], "using host accounts-daemon (not PID 1 — skip second instance)"@))
    } else {
        None
    }
}

/// `c` is the check `host_check_of` describes.
pub open spec fn host_check_is(c: HostCheck, socket: Option<Seq<char>>, processes: Seq<Seq<char>>) -> bool {
    match socket {
        Some(p) => c matches HostCheck::SocketExists(q) && q@ == p,
        None => c matches HostCheck::ProcessRunning(v) && strings_view(v@) == processes,
    }
}

/// How long a service may take to start, in seconds: its own timeout, else
/// `oneshot_secs` for a oneshot service, else 90.
pub open spec fn startup_timeout(service_type: ServiceType, timeout_secs: Option<u64>, oneshot_secs: u64) -> u64 {
    match timeout_secs {
        Some(s) => s,
        None => if service_type == ServiceType::Oneshot { oneshot_secs } else { 90 },
    }
}

/// A timeout in seconds read from an environment value: the number it holds, else `default`.
pub open spec fn timeout_setting(value: Option<Seq<char>>, default: u64) -> u64 {
    match value {
        Some(v) => match parse_unsigned(v, u64::MAX as nat) {
            Some(n) => n as u64,
            None => default,
        },
        None => default,
    }
}

fn timeout_from(value: Option<&str>, default: u64) -> (r: u64)
    ensures
        r == timeout_setting(
            match value {
                Some(v) => Some(v@),
                None => None,
            },
            default,
        ),
{
    match value {
        Some(v) => match parse_u64(v) {
            Some(n) => n,
            None => default,
        },
        None => default,
    }
}

/// The environment variables a service starts with: its own, then `NOTIFY_SOCKET`
/// when it reports readiness, then `LISTEN_FDS` and `FORGE_SOCKET_PATHS` when it is
/// handed sockets; a later setting of a name wins.
pub open spec fn launch_env(
    environment: Seq<(Seq<char>, Seq<char>)>,
    notify_socket: Option<Seq<char>>,
    socket_paths: Seq<Seq<char>>,
) -> Map<Seq<char>, Seq<char>> {
    let notify = match notify_socket {
        Some(p) => seq![("NOTIFY_SOCKET"@, p)],
        None => Seq::empty(),
    };
    let listen = if socket_paths.len() > 0 {
        seq![("LISTEN_FDS"@, decimal(socket_paths.len())), ("FORGE_SOCKET_PATHS"@, joined(socket_paths, ":"@))]
    } else {
        Seq::empty()
    };
    env_map(environment + notify + listen)
}

/// The environment a service starts with, as `launch_env` says; no name occurs twice.
pub fn launch_environment(environment: &Vec<(String, String)>, notify_socket: Option<&str>, socket_paths: &Vec<String>) -> (r: Vec<(String, String)>)
    requires
        socket_paths@.len() <= u64::MAX,
    ensures
        env_map(pairs_view(r@)) == launch_env(
            pairs_view(environment@),
            match notify_socket {
                Some(p) => Some(p@),
                None => None,
            },
            strings_view(socket_paths@),
        ),
        keys_unique(pairs_view(r@)),
{
    let mut extra: Vec<(String, String)> = Vec::new();
    let ghost notify = match notify_socket {
        Some(p) => seq![("NOTIFY_SOCKET"@, p@)],
        None => Seq::<(Seq<char>, Seq<char>)>::empty(),
    };
    match notify_socket {
        Some(p) => {
            extra.push((str_to_string("NOTIFY_SOCKET"), str_to_string(p)));
        },
        None => {},
    }
    assert(pairs_view(extra@) =~= notify);
    let ghost sp = strings_view(socket_paths@);
    let ghost listen = if sp.len() > 0 {
        seq![("LISTEN_FDS"@, decimal(sp.len())), ("FORGE_SOCKET_PATHS"@, joined(sp, ":"@))]
    } else {
        Seq::<(Seq<char>, Seq<char>)>::empty()
    };
    if socket_paths.len() > 0 {
        extra.push((str_to_string("LISTEN_FDS"), u64_to_string(socket_paths.len() as u64)));
        extra.push((str_to_string("FORGE_SOCKET_PATHS"), join_with(socket_paths, ":")));
    }
    assert(pairs_view(extra@) =~= notify + listen);
    let r = merge_environment(environment, &extra);
    assert(pairs_view(environment@) + pairs_view(extra@) =~= pairs_view(environment@) + notify + listen);
    r
}

/// The wait status a clean exit leaves: exited, with code 0.
pub open spec fn clean_exit(status: i32) -> bool {
    exited(status) && exit_code(status) == 0
}

/// The error for a child that ended otherwise than cleanly: `opening` (`"oneshot
/// failed ("`, `"forking parent failed ("`), how it ended, and a closing bracket.
pub open spec fn exit_error(opening: Seq<char>, status: i32) -> Seq<char> {
    opening + crate::dbus_wait::exit_detail_text(status) + ")"@
}

impl ForgeState {
    /// Begins starting unit `key`: a service enters `Starting` and its launch plan is
    /// returned; anything else is `NotService` and is left alone.
    pub fn begin_start(&mut self, key: UnitKey) -> (r: Result<LaunchPlan, ForgeError>)
        requires
            old(self).wf(),
            key < old(self).units().len(),
        ensures
            final(self).wf(),
            final(self).active() == old(self).active(),
            final(self).required() == old(self).required(),
            final(self).provides() == old(self).provides(),
            final(self).same_settings(old(self)),
            if old(self).units()[key as int].kind is Service {
                &&& r matches Ok(p) && launch_plan(old(self).units()[key as int], p)
                &&& final(self).units() == old(self).units().update(key as int, Unit {
                    state: UnitState::Starting,
                    ..old(self).units()[key as int]
                })
            } else {
                &&& r matches Err(ForgeError::NotService(n)) && n == old(self).units()[key as int].name
                &&& final(self).units() == old(self).units()
            },
    {
        let plan = match &self.arena[key].kind {
            UnitKind::Service {
                exec_path,
                args,
                sockets,
                cgroup,
                service_type,
                environment,
                exec_start_pre,
                bus_name,
                sandbox,
                user,
                group,
                working_directory,
                timeout_secs,
                pidfile,
                ..
            } => LaunchPlan {
                name: self.arena[key].name.clone(),
                exec_path: exec_path.clone(),
                args: copy_strings(args),
                sockets: copy_strings(sockets),
                cgroup: cgroup.duplicate(),
                service_type: *service_type,
                environment: copy_pairs(environment),
                exec_start_pre: copy_opt_command(exec_start_pre),
                bus_name: copy_opt_string(bus_name),
                sandbox: *sandbox,
                user: copy_opt_string(user),
                group: copy_opt_string(group),
                working_directory: copy_opt_string(working_directory),
                timeout_secs: *timeout_secs,
                pidfile: copy_opt_string(pidfile),
            },
            _ => {
                return Err(ForgeError::NotService(self.arena[key].name.clone()));
            },
        };
        self.set_unit_state(key, UnitState::Starting);
        Ok(plan)
    }

    /// Why the manager, when it is not PID 1, does not start the unit `name`.
    pub fn sandbox_skip_reason(name: &str) -> (r: Option<&'static str>)
        ensures
            match skip_reason(name@) {
                Some(t) => r matches Some(x) && x@ == t,
                None => r is None,
            },
    {
        if str_eq(name, "display-manager") || str_eq(name, "forge-desktop") {
            Some("will not start desktop session on a live system (logs you out)")
        } else if str_eq(name, "getty-tty3") || str_eq(name, "getty-console") {
            Some("will not attach agetty while desktop is active")
        } else if str_eq(name, "network-setup") {
            Some("defer network bring-up to host NetworkManager")
        } else if str_eq(name, "udev-trigger") {
            Some("will not re-trigger udev on a live system")
        } else if str_eq(name, "udev-settle") {
            Some("will not settle udev on a live system")
        } else if str_eq(name, "forge-early") {
            Some("forge-early uses pkill — use forge-mock-boot.sh for safe simulation")
        } else if str_eq(name, "user-sessions") {
            Some("systemd-user-sessions mutates host login policy")
        } else if str_eq(name, "NetworkManager") {
            Some("will not start a second NetworkManager on a live system")
        } else {
            None
        }
    }

    /// How to tell, when the manager is not PID 1, that the host already runs `name`,
    /// and what to record when it does.
    pub fn host_check(name: &str) -> (r: Option<(HostCheck, String)>)
        ensures
            match host_check_of(name@) {
                Some((socket, processes, detail)) => r matches Some((c, d)) && host_check_is(c, socket, processes) && d@ == detail,
                None => r is None,
            },
    {
        if str_eq(name, "dbus") {
            Some((HostCheck::SocketExists(str_to_string("/run/dbus/system_bus_socket")),
                str_to_string("using host system D-Bus (not PID 1 — skip starting dbus-daemon)")))
        } else if str_eq(name, "NetworkManager") {
            let v = vec![str_to_string("NetworkManager")];
            assert(strings_view(v@) =~= seq!["NetworkManager"@]);
            Some((HostCheck::ProcessRunning(v), str_to_string("using host NetworkManager (not PID 1 — skip second instance)")))
        } else if str_eq(name, "udev") {
            let v = vec![str_to_string("systemd-udevd"), str_to_string("udevd")];
            assert(strings_view(v@) =~= seq!["systemd-udevd"@, "udevd"@]);
            Some((HostCheck::ProcessRunning(v), str_to_string("using host udevd (not PID 1 — skip second instance)")))
        } else if str_eq(name, "logind") {
            let v = vec![str_to_string("systemd-logind"), str_to_string("elogind")];
            assert(strings_view(v@) =~= seq!["systemd-logind"@, "elogind"@]);
            Some((HostCheck::ProcessRunning(v),
                str_to_string("using host logind (elogind or systemd-logind) (not PID 1 — skip second instance)")))
        } else if str_eq(name, "polkit") {
            let v = vec![str_to_string("polkitd")];
            assert(strings_view(v@) =~= seq!["polkitd"@]);
            Some((HostCheck::ProcessRunning(v), str_to_string("using host polkitd (not PID 1 — skip second instance)")))
        } else if str_eq(name, "accounts-daemon") {
            let v = vec![str_to_string("accounts-daemon")];
            assert(strings_view(v@) =~= seq!["accounts-daemon"@]);
            Some((HostCheck::ProcessRunning(v),
                str_to_string("using host accounts-daemon (not PID 1 — skip second instance)")))
        } else {
            None
        }
    }

    /// How long a service of `service_type` may take to start, in seconds: its own
    /// `timeout_secs`, else `oneshot_secs` for a oneshot service, else 90.
    pub fn service_timeout(service_type: ServiceType, timeout_secs: Option<u64>, oneshot_secs: u64) -> (r: u64)
        ensures
            r == startup_timeout(service_type, timeout_secs, oneshot_secs),
    {
        match timeout_secs {
            Some(s) => s,
            None => if service_type == ServiceType::Oneshot { oneshot_secs } else { 90 },
        }
    }

    /// The start timeout of oneshot services, in seconds, from the value of
    /// `FORGE_ONESHOT_TIMEOUT_SECS`: the number it holds, else 120.
    pub fn oneshot_timeout(value: Option<&str>) -> (r: u64)
        ensures
            r == timeout_setting(
                match value {
                    Some(v) => Some(v@),
                    None => None,
                },
                120,
            ),
    {
        timeout_from(value, 120)
    }

    /// How long stopping services may take, in seconds, from the value of
    /// `FORGE_STOP_TIMEOUT_SECS`: the number it holds, else 90.
    pub fn stop_timeout(value: Option<&str>) -> (r: u64)
        ensures
            r == timeout_setting(
                match value {
                    Some(v) => Some(v@),
                    None => None,
                },
                90,
            ),
    {
        timeout_from(value, 90)
    }
}

/// The units of a wave the boot handles together: socket units first, then mount
/// units, then services.
#[derive(Debug, Clone, Copy, PartialEq, Eq, Structural)]
pub enum Phase {
    Sockets,
    Mounts,
    Services,
}

/// A unit of kind `k` is handled in phase `p`.
pub open spec fn in_phase(k: UnitKind, p: Phase) -> bool {
    match p {
        Phase::Sockets => k is Socket,
        Phase::Mounts => k is Mount,
        Phase::Services => k is Service,
    }
}

/// The units among `keys` handled in phase `p`, in order.
pub open spec fn phase_in(units: Seq<Unit>, keys: Seq<usize>, p: Phase) -> Seq<usize>
    decreases keys.len(),
{
    if keys.len() == 0 {
        Seq::empty()
    } else {
        let r = phase_in(units, keys.drop_last(), p);
        if keys.last() < units.len() && in_phase(units[keys.last() as int].kind, p) {
            r.push(keys.last())
        } else {
            r
        }
    }
}

/// The bootable active units among the first `n`, in order of their keys.
pub open spec fn bootable_upto(units: Seq<Unit>, active: Seq<bool>, n: int) -> Seq<usize>
    decreases n,
{
    if n <= 0 {
        Seq::empty()
    } else if bootable_at(units, active, n - 1) {
        bootable_upto(units, active, n - 1).push((n - 1) as usize)
    } else {
        bootable_upto(units, active, n - 1)
    }
}

/// The unit named `name` exists and is a socket unit.
pub open spec fn socket_named(units: Seq<Unit>, name: Seq<char>) -> bool {
    match lookup(units, name) {
        Some(k) => units[k].kind is Socket,
        None => false,
    }
}

/// A socket unit's kind once its sockets listen under `labels`.
pub open spec fn with_activation(k: UnitKind, labels: Vec<String>) -> UnitKind {
    match k {
        UnitKind::Socket { listen, service, after, .. } => UnitKind::Socket { listen, service, after, activation: Some(labels) },
        _ => k,
    }
}

/// A mount unit's kind once it is mounted.
pub open spec fn now_mounted(k: UnitKind) -> UnitKind {
    match k {
        UnitKind::Mount { what, where_, fstype, options, after, .. } => UnitKind::Mount { what, where_, fstype, options, after, mounted: true },
        _ => k,
    }
}

/// `targets` with each name of `extra` that it does not hold yet added at the end.
pub open spec fn chain_with(targets: Seq<Seq<char>>, extra: Seq<Seq<char>>) -> Seq<Seq<char>>
    decreases extra.len(),
{
    if extra.len() == 0 {
        targets
    } else {
        let c = chain_with(targets, extra.drop_last());
        if c.contains(extra.last()) { c } else { c.push(extra.last()) }
    }
}

/// The mount points of the mounted mount units among `units`, in order.
pub open spec fn mounted_in(units: Seq<Unit>) -> Seq<Seq<char>>
    decreases units.len(),
{
    if units.len() == 0 {
        Seq::empty()
    } else {
        let r = mounted_in(units.drop_last());
        match units.last().kind {
            UnitKind::Mount { where_, mounted: true, .. } => r.push(where_@),
            _ => r,
        }
    }
}

/// The services among `keys` that have a process, with that process, in order.
pub open spec fn running_in(units: Seq<Unit>, keys: Seq<usize>) -> Seq<(usize, u32)>
    decreases keys.len(),
{
    if keys.len() == 0 {
        Seq::empty()
    } else {
        let r = running_in(units, keys.drop_last());
        if keys.last() < units.len() && units[keys.last() as int].kind matches UnitKind::Service { pid: Some(p), .. } {
            r.push((keys.last(), units[keys.last() as int].kind->Service_pid->0))
        } else {
            r
        }
    }
}

/// The process a forking service leaves running, from what `pgrep` printed.
pub fn parse_pgrep_pid(output: &str) -> (r: Option<u32>)
    ensures
        match parse_unsigned(crate::text::trim(output@), u32::MAX as nat) {
            Some(n) => r == Some(n as u32),
            None => r is None,
        },
{
    let v = crate::text::chars_of(output);
    let (a, b) = crate::text::trim_bounds(v.as_slice(), 0, v.len());
    assert(v@.subrange(0, v@.len() as int) =~= v@);
    crate::text::parse_u32_range(v.as_slice(), a, b)
}

/// The name the daemon of a forking service runs under: the file name of its program.
pub fn daemon_basename(exec: &str) -> (r: String)
    ensures
        r@ == match file_name_of(exec@) {
            Some(n) => n,
            None => exec@,
        },
{
    match path_file_name(exec) {
        Some(n) => n,
        None => str_to_string(exec),
    }
}

/// The error for a forking service `name` that left no process named `basename`.
pub fn forking_daemon_missing(name: &str, basename: &str) -> (r: ForgeError)
    ensures
        r matches ForgeError::SpawnFailed { name: n, error } && n@ == name@
            && error@ == "forking service '"@ + name@ + "' did not leave a running '"@ + basename@ + "' process"@,
{
    let a = concat3("forking service '", name, "' did not leave a running '");
    ForgeError::SpawnFailed { name: str_to_string(name), error: concat3(a.as_str(), basename, "' process") }
}

/// Units changed in place, names and dependencies kept: the unit invariants carry over.
proof fn lemma_shape_kept(before: Seq<Unit>, after: Seq<Unit>)
    requires
        names_unique(before),
        forall|k: int, j: int|
            0 <= k < before.len() && 0 <= j < before[k].dependencies@.len()
                ==> #[trigger] before[k].dependencies@[j] < before.len(),
        before.len() == after.len(),
        forall|i: int| #![trigger after[i]] 0 <= i < before.len() ==> after[i].name == before[i].name
            && after[i].dependencies == before[i].dependencies,
    ensures
        names_unique(after),
        forall|k: int, j: int|
            0 <= k < after.len() && 0 <= j < after[k].dependencies@.len()
                ==> #[trigger] after[k].dependencies@[j] < after.len(),
{
    assert forall|a: int, b: int|
        0 <= a < after.len() && 0 <= b < after.len() && a != b implies (#[trigger] after[a]).name@
            != (#[trigger] after[b]).name@ by {
        assert(before[a].name == after[a].name);
        assert(before[b].name == after[b].name);
    }
    assert forall|k: int, j: int|
        0 <= k < after.len() && 0 <= j < after[k].dependencies@.len()
            implies #[trigger] after[k].dependencies@[j] < after.len() by {
        assert(before[k].dependencies == after[k].dependencies);
    }
}

impl ForgeState {
    /// Forgets the process of service `key` (its start was abandoned).
    pub fn clear_pid(&mut self, key: UnitKey)
        requires
            old(self).wf(),
            key < old(self).units().len(),
        ensures
            final(self).wf(),
            final(self).units() == old(self).units().update(key as int, Unit {
                kind: with_pid(old(self).units()[key as int].kind, None),
                ..old(self).units()[key as int]
            }),
            final(self).active() == old(self).active(),
            final(self).required() == old(self).required(),
            final(self).provides() == old(self).provides(),
            final(self).same_settings(old(self)),
    {
        let ghost before = self.arena@;
        match &mut self.arena[key].kind {
            UnitKind::Service { pid: p, .. } => {
                *p = None;
            },
            _ => {},
        }
        assert(self.arena@ =~= before.update(key as int, Unit {
            kind: with_pid(before[key as int].kind, None),
            ..before[key as int]
        }));
        proof {
            lemma_shape_kept(before, self.arena@);
        }
    }
}

impl ForgeState {
    /// Records how a oneshot service `key` ended with wait status `status`: it forgets
    /// its process and becomes `Dead` after a clean exit, `Failed` otherwise, which is
    /// also reported as an error.
    pub fn finish_oneshot(&mut self, key: UnitKey, status: i32) -> (r: Result<(), ForgeError>)
        requires
            old(self).wf(),
            key < old(self).units().len(),
        ensures
            final(self).wf(),
            final(self).units() == old(self).units().update(key as int, Unit {
                kind: with_pid(old(self).units()[key as int].kind, None),
                state: if clean_exit(status) { UnitState::Dead } else { UnitState::Failed },
                ..old(self).units()[key as int]
            }),
            final(self).active() == old(self).active(),
            final(self).required() == old(self).required(),
            final(self).provides() == old(self).provides(),
            final(self).same_settings(old(self)),
            clean_exit(status) ==> r is Ok,
            !clean_exit(status) ==> (r matches Err(ForgeError::SpawnFailed { name, error })
                && name == old(self).units()[key as int].name
                && error@ == exit_error("oneshot failed ("@, status)),
    {
        self.clear_pid(key);
        let clean = crate::wait_status::child_exited(status) && crate::wait_status::child_exit_code(status) == 0;
        if clean {
            self.set_unit_state(key, UnitState::Dead);
            Ok(())
        } else {
            self.set_unit_state(key, UnitState::Failed);
            let detail = crate::dbus_wait::exit_detail(status);
            let error = concat3("oneshot failed (", detail.as_str(), ")");
            Err(ForgeError::SpawnFailed { name: self.arena[key].name.clone(), error })
        }
    }

    /// Checks how the parent process of a forking service `key` ended: after a clean
    /// exit nothing changes; otherwise the service forgets its process and the failure
    /// is reported.
    pub fn check_forking_parent(&mut self, key: UnitKey, status: i32) -> (r: Result<(), ForgeError>)
        requires
            old(self).wf(),
            key < old(self).units().len(),
        ensures
            final(self).wf(),
            final(self).active() == old(self).active(),
            final(self).required() == old(self).required(),
            final(self).provides() == old(self).provides(),
            final(self).same_settings(old(self)),
            clean_exit(status) ==> r is Ok && final(self).units() == old(self).units(),
            !clean_exit(status) ==> {
                &&& r matches Err(ForgeError::SpawnFailed { name, error })
                    && name == old(self).units()[key as int].name
                    && error@ == exit_error("forking parent failed ("@, status)
                &&& final(self).units() == old(self).units().update(key as int, Unit {
                    kind: with_pid(old(self).units()[key as int].kind, None),
                    ..old(self).units()[key as int]
                })
            },
    {
        let clean = crate::wait_status::child_exited(status) && crate::wait_status::child_exit_code(status) == 0;
        if clean {
            return Ok(());
        }
        self.clear_pid(key);
        let detail = crate::dbus_wait::exit_detail(status);
        let error = concat3("forking parent failed (", detail.as_str(), ")");
        Err(ForgeError::SpawnFailed { name: self.arena[key].name.clone(), error })
    }

    /// Begins activating socket unit `key`: it enters `Starting` and the addresses it
    /// listens on are returned. Any other unit is left alone (`None`).
    pub fn begin_socket_activation(&mut self, key: UnitKey) -> (r: Option<Vec<String>>)
        requires
            old(self).wf(),
            key < old(self).units().len(),
        ensures
            final(self).wf(),
            final(self).active() == old(self).active(),
            final(self).required() == old(self).required(),
            final(self).provides() == old(self).provides(),
            final(self).same_settings(old(self)),
            match old(self).units()[key as int].kind {
                UnitKind::Socket { listen, .. } => r matches Some(l) && l@ == listen@
                    && final(self).units() == old(self).units().update(key as int, Unit {
                        state: UnitState::Starting,
                        ..old(self).units()[key as int]
                    }),
                _ => r is None && final(self).units() == old(self).units(),
            },
    {
        let listen = match &self.arena[key].kind {
            UnitKind::Socket { listen, .. } => copy_strings(listen),
            _ => {
                return None;
            },
        };
        self.set_unit_state(key, UnitState::Starting);
        Some(listen)
    }

    /// Records that socket unit `key` listens, on the sockets labelled `labels`.
    pub fn finish_socket_activation(&mut self, key: UnitKey, labels: Vec<String>)
        requires
            old(self).wf(),
            key < old(self).units().len(),
        ensures
            final(self).wf(),
            final(self).units() == old(self).units().update(key as int, Unit {
                kind: with_activation(old(self).units()[key as int].kind, labels),
                state: if old(self).units()[key as int].kind is Socket {
                    UnitState::Listening
                } else {
                    old(self).units()[key as int].state
                },
                ..old(self).units()[key as int]
            }),
            final(self).active() == old(self).active(),
            final(self).required() == old(self).required(),
            final(self).provides() == old(self).provides(),
            final(self).same_settings(old(self)),
    {
        let ghost before = self.arena@;
        let is_socket = match &self.arena[key].kind {
            UnitKind::Socket { .. } => true,
            _ => false,
        };
        if is_socket {
            match &mut self.arena[key].kind {
                UnitKind::Socket { activation, .. } => {
                    *activation = Some(labels);
                },
                _ => {},
            }
            self.arena[key].state = UnitState::Listening;
        }
        assert(self.arena@ =~= before.update(key as int, Unit {
            kind: with_activation(before[key as int].kind, labels),
            state: if before[key as int].kind is Socket { UnitState::Listening } else { before[key as int].state },
            ..before[key as int]
        }));
        proof {
            lemma_shape_kept(before, self.arena@);
        }
    }

    /// Begins activating mount unit `key` when it is not mounted yet: it enters
    /// `Starting` and what to mount, where, of which type and with which options is
    /// returned. Any other unit, or one already mounted, is left alone (`None`).
    pub fn begin_mount(&mut self, key: UnitKey) -> (r: Option<(String, String, String, String)>)
        requires
            old(self).wf(),
            key < old(self).units().len(),
        ensures
            final(self).wf(),
            final(self).active() == old(self).active(),
            final(self).required() == old(self).required(),
            final(self).provides() == old(self).provides(),
            final(self).same_settings(old(self)),
            match old(self).units()[key as int].kind {
                UnitKind::Mount { what, where_, fstype, options, mounted: false, .. } => r
                    == Some((what, where_, fstype, options))
                    && final(self).units() == old(self).units().update(key as int, Unit {
                        state: UnitState::Starting,
                        ..old(self).units()[key as int]
                    }),
                _ => r is None && final(self).units() == old(self).units(),
            },
    {
        let m = match &self.arena[key].kind {
            UnitKind::Mount { what, where_, fstype, options, mounted, .. } => {
                if *mounted {
                    return None;
                }
                (what.clone(), where_.clone(), fstype.clone(), options.clone())
            },
            _ => {
                return None;
            },
        };
        self.set_unit_state(key, UnitState::Starting);
        Some(m)
    }

    /// Records how mounting unit `key` went. A mount that succeeded makes the unit
    /// mounted and `Running`. A failure is an error when the manager is PID 1; otherwise
    /// the unit becomes `Dead` and the boot goes on.
    pub fn finish_mount(&mut self, key: UnitKey, outcome: Result<(), String>, is_pid1: bool) -> (r: Result<(), ForgeError>)
        requires
            old(self).wf(),
            key < old(self).units().len(),
        ensures
            final(self).wf(),
            final(self).active() == old(self).active(),
            final(self).required() == old(self).required(),
            final(self).provides() == old(self).provides(),
            final(self).same_settings(old(self)),
            match outcome {
                Ok(_) => r is Ok && final(self).units() == old(self).units().update(key as int, Unit {
                    kind: now_mounted(old(self).units()[key as int].kind),
                    state: UnitState::Running,
                    ..old(self).units()[key as int]
                }),
                Err(e) => if is_pid1 {
                    &&& r matches Err(ForgeError::InvalidOperation(m))
                        && m@ == "mount '"@ + old(self).units()[key as int].name@ + "': "@ + e@
                    &&& final(self).units() == old(self).units()
                } else {
                    r is Ok && final(self).units() == old(self).units().update(key as int, Unit {
                        state: UnitState::Dead,
                        ..old(self).units()[key as int]
                    })
                },
            },
    {
        match outcome {
            Ok(_) => {
                let ghost before = self.arena@;
                match &mut self.arena[key].kind {
                    UnitKind::Mount { mounted, .. } => {
                        *mounted = true;
                    },
                    _ => {},
                }
                self.arena[key].state = UnitState::Running;
                assert(self.arena@ =~= before.update(key as int, Unit {
                    kind: now_mounted(before[key as int].kind),
                    state: UnitState::Running,
                    ..before[key as int]
                }));
                proof {
                    lemma_shape_kept(before, self.arena@);
                }
                Ok(())
            },
            Err(e) => {
                if is_pid1 {
                    let a = concat3("mount '", self.arena[key].name.as_str(), "': ");
                    Err(ForgeError::InvalidOperation(concat(a.as_str(), e.as_str())))
                } else {
                    self.set_unit_state(key, UnitState::Dead);
                    Ok(())
                }
            },
        }
    }

    /// The socket units a service is handed, by name: `MissingUnit` for a name no unit
    /// has, `InvalidOperation` for a unit that is not a socket; the first such name decides.
    pub fn socket_keys(&self, names: &Vec<String>) -> (r: Result<Vec<UnitKey>, ForgeError>)
        requires
            self.wf(),
        ensures
            r matches Ok(keys) ==> keys@.len() == names@.len() && forall|i: int| 0 <= i < names@.len()
                ==> lookup(self.units(), #[trigger] names@[i]@) == Some(keys@[i] as int)
                && self.units()[keys@[i] as int].kind is Socket,
            r is Ok <== forall|i: int| 0 <= i < names@.len() ==> socket_named(self.units(), #[trigger] names@[i]@),
            r matches Err(e) ==> exists|i: int| #![trigger names@[i]] 0 <= i < names@.len() && {
                &&& forall|j: int| 0 <= j < i ==> socket_named(self.units(), #[trigger] names@[j]@)
                &&& match lookup(self.units(), names@[i]@) {
                    None => e matches ForgeError::MissingUnit { unit, dependency }
                        && unit@ == "service"@ && dependency@ == names@[i]@,
                    Some(k) => !(self.units()[k].kind is Socket) && (e matches ForgeError::InvalidOperation(m)
                        && m@ == "'"@ + names@[i]@ + "' is not a socket unit"@),
                }
            },
    {
        let mut keys: Vec<UnitKey> = Vec::new();
        let mut i: usize = 0;
        while i < names.len()
            invariant
                self.wf(),
                i <= names@.len(),
                keys@.len() == i,
                forall|j: int| 0 <= j < i ==> lookup(self.units(), #[trigger] names@[j]@) == Some(keys@[j] as int)
                    && self.units()[keys@[j] as int].kind is Socket,
            decreases names@.len() - i,
        {
            match self.find_unit(names[i].as_str()) {
                None => {
                    return Err(ForgeError::MissingUnit { unit: str_to_string("service"), dependency: names[i].clone() });
                },
                Some(k) => {
                    let is_socket = match &self.arena[k].kind {
                        UnitKind::Socket { .. } => true,
                        _ => false,
                    };
                    if !is_socket {
                        return Err(ForgeError::InvalidOperation(concat3("'", names[i].as_str(), "' is not a socket unit")));
                    }
                    keys.push(k);
                },
            }
            i = i + 1;
        }
        Ok(keys)
    }
}

impl ForgeState {
    /// Records that unit `key` failed to start during boot; the result says whether the
    /// boot stops there: under a strict boot, when the unit is required.
    pub fn note_start_failure(&mut self, key: UnitKey) -> (r: bool)
        requires
            old(self).wf(),
            key < old(self).units().len(),
        ensures
            final(self).wf(),
            final(self).units() == old(self).units().update(key as int, Unit {
                state: UnitState::Failed,
                ..old(self).units()[key as int]
            }),
            final(self).active() == old(self).active(),
            final(self).required() == old(self).required(),
            final(self).provides() == old(self).provides(),
            final(self).same_settings(old(self)),
            r == (old(self).strict() && old(self).required()[key as int]),
    {
        self.set_unit_state(key, UnitState::Failed);
        self.strict_boot && self.required_units[key]
    }

    /// The bootable active units, in order of their keys.
    pub fn bootable_units(&self) -> (r: Vec<UnitKey>)
        requires
            self.wf(),
        ensures
            r@ == bootable_upto(self.units(), self.active(), self.units().len() as int),
    {
        let mut r: Vec<UnitKey> = Vec::new();
        let mut k: usize = 0;
        while k < self.arena.len()
            invariant
                self.wf(),
                k <= self.units().len(),
                r@ == bootable_upto(self.units(), self.active(), k as int),
            decreases self.units().len() - k,
        {
            let bootable = match &self.arena[k].kind {
                UnitKind::Service { .. } | UnitKind::Socket { .. } | UnitKind::Device { .. } | UnitKind::Mount { .. } => true,
                _ => false,
            };
            if self.active_units[k] && bootable {
                r.push(k);
            }
            k = k + 1;
        }
        r
    }

    /// The waves a boot goes through: those of `boot_waves`; under a lenient boot, a
    /// dependency cycle gives one wave of every bootable unit instead of an error.
    pub fn boot_plan(&self) -> (r: Result<Vec<Vec<UnitKey>>, ForgeError>)
        requires
            self.wf(),
        ensures
            r matches Ok(w) ==> (leveled(self.units(), self.active(), waves_view(w@))
                && complete(self.units(), self.active(), waves_view(w@))) || (self.lenient()
                && waves_view(w@) == seq![bootable_upto(self.units(), self.active(), self.units().len() as int)]
                && exists|v: Seq<Seq<usize>>| leveled(self.units(), self.active(), v) && !complete(self.units(), self.active(), v)),
            r matches Err(e) ==> e is CycleDetected && !self.lenient() && exists|v: Seq<Seq<usize>>|
                leveled(self.units(), self.active(), v) && !complete(self.units(), self.active(), v),
    {
        match self.boot_waves() {
            Ok(w) => Ok(w),
            Err(e) => {
                if self.boot_lenient {
                    let all = self.bootable_units();
                    let w = vec![all];
                    assert(waves_view(w@) =~= seq![all@]);
                    Ok(w)
                } else {
                    Err(e)
                }
            },
        }
    }

    /// The targets a boot tries in turn: the active one, then each of `extra` not
    /// listed yet.
    pub fn fallback_chain(&self, extra: &Vec<String>) -> (r: Vec<String>)
        ensures
            strings_view(r@) == chain_with(seq![self.target()], strings_view(extra@)),
    {
        let mut r: Vec<String> = Vec::new();
        r.push(self.active_target.clone());
        assert(strings_view(r@) =~= seq![self.target()]);
        let mut i: usize = 0;
        while i < extra.len()
            invariant
                i <= extra@.len(),
                strings_view(r@) == chain_with(seq![self.target()], strings_view(extra@).take(i as int)),
            decreases extra@.len() - i,
        {
            assert(strings_view(extra@).take(i + 1).drop_last() =~= strings_view(extra@).take(i as int));
            push_absent(&mut r, extra[i].clone());
            i = i + 1;
        }
        assert(strings_view(extra@).take(extra@.len() as int) =~= strings_view(extra@));
        r
    }

    /// The units among `keys` handled in `phase`, in order.
    pub fn phase_units(&self, keys: &Vec<UnitKey>, phase: Phase) -> (r: Vec<UnitKey>)
        requires
            self.wf(),
        ensures
            r@ == phase_in(self.units(), keys@, phase),
    {
        let mut r: Vec<UnitKey> = Vec::new();
        let mut j: usize = 0;
        while j < keys.len()
            invariant
                self.wf(),
                j <= keys@.len(),
                r@ == phase_in(self.units(), keys@.take(j as int), phase),
            decreases keys@.len() - j,
        {
            let key = keys[j];
            assert(keys@.take(j + 1).drop_last() =~= keys@.take(j as int));
            if key < self.arena.len() {
                let hit = match (&self.arena[key].kind, phase) {
                    (UnitKind::Socket { .. }, Phase::Sockets) => true,
                    (UnitKind::Mount { .. }, Phase::Mounts) => true,
                    (UnitKind::Service { .. }, Phase::Services) => true,
                    _ => false,
                };
                if hit {
                    r.push(key);
                }
            }
            j = j + 1;
        }
        assert(keys@.take(keys@.len() as int) =~= keys@);
        r
    }

    /// Records in the boot profile that the wave numbered `number`, of units `keys`,
    /// took `duration_ms`.
    pub fn record_wave(&mut self, number: usize, keys: &Vec<UnitKey>, duration_ms: u128)
        requires
            old(self).wf(),
            forall|i: int| 0 <= i < keys@.len() ==> #[trigger] keys@[i] < old(self).units().len(),
        ensures
            final(self).wf(),
            final(self).units() == old(self).units(),
            final(self).active() == old(self).active(),
            final(self).required() == old(self).required(),
            final(self).provides() == old(self).provides(),
            final(self).pids() == old(self).pids(),
            final(self).restarts() == old(self).restarts(),
            final(self).shutting() == old(self).shutting(),
            final(self).target() == old(self).target(),
            final(self).profile().total_boot_ms == old(self).profile().total_boot_ms,
            final(self).profile().active_target == old(self).profile().active_target,
            final(self).profile().waves@.len() == old(self).profile().waves@.len() + 1,
            final(self).profile().waves@.drop_last() == old(self).profile().waves@,
            final(self).profile().waves@.last().wave == number,
            final(self).profile().waves@.last().duration_ms == duration_ms,
            strings_view(final(self).profile().waves@.last().services@)
                == keys@.map_values(|k: usize| old(self).units()[k as int].name@),
    {
        let mut names: Vec<String> = Vec::new();
        let mut j: usize = 0;
        while j < keys.len()
            invariant
                self.wf(),
                self.units() == old(self).units(),
                j <= keys@.len(),
                forall|i: int| 0 <= i < keys@.len() ==> #[trigger] keys@[i] < self.units().len(),
                strings_view(names@) == keys@.take(j as int).map_values(|k: usize| self.units()[k as int].name@),
            decreases keys@.len() - j,
        {
            let ghost before = names@;
            let n = self.arena[keys[j]].name.clone();
            assert(n@ == self.units()[keys@[j as int] as int].name@);
            names.push(n);
            assert(keys@.take(j + 1) =~= keys@.take(j as int).push(keys@[j as int]));
            assert(strings_view(names@) =~= strings_view(before).push(n@));
            j = j + 1;
            assert(strings_view(names@) =~= keys@.take(j as int).map_values(|k: usize| self.units()[k as int].name@));
        }
        assert(keys@.take(keys@.len() as int) =~= keys@);
        let ghost before = self.boot_profile.waves@;
        self.boot_profile.waves.push(WaveTiming { wave: number, services: names, duration_ms });
        assert(self.boot_profile.waves@.drop_last() =~= before);
    }

    /// Records how long the whole boot took.
    pub fn set_total_boot_ms(&mut self, ms: u128)
        requires
            old(self).wf(),
        ensures
            final(self).wf(),
            final(self).profile() == (BootProfileReport { total_boot_ms: ms, ..old(self).profile() }),
            final(self).units() == old(self).units(),
            final(self).active() == old(self).active(),
            final(self).required() == old(self).required(),
            final(self).provides() == old(self).provides(),
            final(self).pids() == old(self).pids(),
            final(self).restarts() == old(self).restarts(),
            final(self).shutting() == old(self).shutting(),
            final(self).target() == old(self).target(),
    {
        self.boot_profile.total_boot_ms = ms;
    }

    /// Begins a shutdown: the first call marks the manager as shutting down and returns
    /// the services to stop, in order: the reverse of the boot waves, or every bootable
    /// service when the waves have a cycle. Later calls return `None` and change nothing.
    pub fn shutdown_order(&mut self) -> (r: Option<Vec<UnitKey>>)
        requires
            old(self).wf(),
        ensures
            final(self).wf(),
            final(self).shutting(),
            final(self).units() == old(self).units(),
            final(self).active() == old(self).active(),
            final(self).required() == old(self).required(),
            final(self).provides() == old(self).provides(),
            final(self).pids() == old(self).pids(),
            final(self).restarts() == old(self).restarts(),
            old(self).shutting() ==> r is None,
            !old(self).shutting() ==> (r matches Some(order) && (
                (exists|w: Seq<Seq<usize>>| leveled(old(self).units(), old(self).active(), w)
                    && complete(old(self).units(), old(self).active(), w)
                    && order@ == stop_sequence(old(self).units(), w))
                || (exists|w: Seq<Seq<usize>>| leveled(old(self).units(), old(self).active(), w)
                    && !complete(old(self).units(), old(self).active(), w))
                    && order@ == services_in(old(self).units(),
                        bootable_upto(old(self).units(), old(self).active(), old(self).units().len() as int)))),
    {
        if self.shutting_down {
            return None;
        }
        self.shutting_down = true;
        assert(self.units() == old(self).units());
        assert(self.active() == old(self).active());
        match self.stop_order() {
            Ok(order) => Some(order),
            Err(_) => {
                let all = self.bootable_units();
                let mut order: Vec<UnitKey> = Vec::new();
                let mut j: usize = 0;
                while j < all.len()
                    invariant
                        self.wf(),
                        j <= all@.len(),
                        order@ == services_in(self.units(), all@.take(j as int)),
                    decreases all@.len() - j,
                {
                    let key = all[j];
                    assert(all@.take(j + 1).drop_last() =~= all@.take(j as int));
                    if key < self.arena.len() {
                        let is_svc = match &self.arena[key].kind {
                            UnitKind::Service { .. } => true,
                            _ => false,
                        };
                        if is_svc {
                            order.push(key);
                        }
                    }
                    j = j + 1;
                }
                assert(all@.take(all@.len() as int) =~= all@);
                Some(order)
            },
        }
    }

    /// The bootable services that still have a process, with that process, in order.
    pub fn running_services(&self) -> (r: Vec<(UnitKey, u32)>)
        requires
            self.wf(),
        ensures
            r@ == running_in(self.units(), bootable_upto(self.units(), self.active(), self.units().len() as int)),
    {
        let all = self.bootable_units();
        let mut r: Vec<(UnitKey, u32)> = Vec::new();
        let mut j: usize = 0;
        while j < all.len()
            invariant
                self.wf(),
                j <= all@.len(),
                r@ == running_in(self.units(), all@.take(j as int)),
            decreases all@.len() - j,
        {
            let key = all[j];
            assert(all@.take(j + 1).drop_last() =~= all@.take(j as int));
            if key < self.arena.len() {
                match &self.arena[key].kind {
                    UnitKind::Service { pid: Some(p), .. } => {
                        r.push((key, *p));
                    },
                    _ => {},
                }
            }
            j = j + 1;
        }
        assert(all@.take(all@.len() as int) =~= all@);
        r
    }

    /// Where the mounted mount units are mounted, in order.
    pub fn mounted_points(&self) -> (r: Vec<String>)
        ensures
            strings_view(r@) == mounted_in(self.units()),
    {
        let mut r: Vec<String> = Vec::new();
        let mut k: usize = 0;
        while k < self.arena.len()
            invariant
                k <= self.units().len(),
                strings_view(r@) == mounted_in(self.units().take(k as int)),
            decreases self.units().len() - k,
        {
            assert(self.units().take(k + 1).drop_last() =~= self.units().take(k as int));
            match &self.arena[k].kind {
                UnitKind::Mount { where_, mounted, .. } => {
                    if *mounted {
                        r.push(where_.clone());
                    }
                },
                _ => {},
            }
            k = k + 1;
            assert(strings_view(r@) =~= mounted_in(self.units().take(k as int)));
        }
        assert(self.units().take(self.units().len() as int) =~= self.units());
        r
    }

    /// Registers a service started by hand, running `binary` with `args` and nothing
    /// else configured, and makes it part of what the manager runs.
    pub fn register_adhoc(&mut self, name: &str, binary: &str, args: Vec<String>) -> (r: UnitKey)
        requires
            old(self).wf(),
        ensures
            final(self).wf(),
            final(self).same_settings(old(self)),
            final(self).provides() == old(self).provides(),
            r < final(self).units().len(),
            final(self).active()[r as int],
            exists|m: ServiceManifest, e: Vec<String>|
                #![trigger inserted(old(self).units(), final(self).units(), name@, service_kind(m), r as int), e@]
                e@.len() == 0 && plain_manifest(m, name@, binary@, args, e, e, e, e, RestartPolicy::No, ServiceLimits { memory_max: None, tasks_max: None })
                && inserted(old(self).units(), final(self).units(), name@, service_kind(m), r as int),
    {
        let after: Vec<String> = Vec::new();
        let needs: Vec<String> = Vec::new();
        let wants: Vec<String> = Vec::new();
        let sockets: Vec<String> = Vec::new();
        let ghost e = after;
        let ghost (a0, n0, w0, s0) = (after, needs, wants, sockets);
        let ghost given = args;
        let ghost units0 = self.units();
        let key = match self.register_service(
            str_to_string(name),
            str_to_string(binary),
            args,
            after,
            needs,
            wants,
            sockets,
            RestartPolicy::No,
            ServiceLimits { memory_max: None, tasks_max: None },
        ) {
            Ok(k) => k,
            Err(_) => {
                return 0;
            },
        };
        proof {
            let m = choose|m: ServiceManifest|
                plain_manifest(m, name@, binary@, given, a0, n0, w0, s0, RestartPolicy::No, ServiceLimits { memory_max: None, tasks_max: None })
                && #[trigger] inserted(units0, self.units(), name@, service_kind(m), key as int);
            assert(plain_manifest(m, name@, binary@, given, e, e, e, e, RestartPolicy::No, ServiceLimits { memory_max: None, tasks_max: None }));
            assert(e@ == e@);
        }
        self.activate_unit(key);
        key
    }
}

/// Where `x` goes in `r`, sorted by name: after every unit whose name does not sort after it.
fn insert_position(units: &Vec<Unit>, r: &Vec<usize>, x: usize) -> (p: usize)
    requires
        x < units@.len(),
        forall|i: int| 0 <= i < r@.len() ==> #[trigger] r@[i] < units@.len(),
    ensures
        p <= r@.len(),
        forall|i: int| 0 <= i < p ==> !seq_lt(units@[x as int].name@, units@[#[trigger] r@[i] as int].name@),
        p < r@.len() ==> seq_lt(units@[x as int].name@, units@[r@[p as int] as int].name@),
{
    let xname = units[x].name.as_str();
    let mut p: usize = 0;
    while p < r.len() && !str_lt(xname, units[r[p]].name.as_str())
        invariant
            x < units@.len(),
            xname@ == units@[x as int].name@,
            p <= r@.len(),
            forall|i: int| 0 <= i < r@.len() ==> #[trigger] r@[i] < units@.len(),
            forall|i: int| 0 <= i < p ==> !seq_lt(units@[x as int].name@, units@[#[trigger] r@[i] as int].name@),
        decreases r@.len() - p,
    {
        p = p + 1;
    }
    p
}

/// Inserts `x` into `r`, keeping `r` sorted by name.
#[verifier::rlimit(50)]
#[verifier::spinoff_prover]
fn insert_by_name(units: &Vec<Unit>, r: &mut Vec<usize>, x: usize)
    requires
        names_unique(units@),
        x < units@.len(),
        forall|i: int| 0 <= i < old(r)@.len() ==> #[trigger] old(r)@[i] < units@.len(),
        sorted_by_name(units@, old(r)@),
        !old(r)@.contains(x),
    ensures
        sorted_by_name(units@, final(r)@),
        forall|i: int| 0 <= i < final(r)@.len() ==> #[trigger] final(r)@[i] < units@.len(),
        forall|y: usize| final(r)@.contains(y) <==> (old(r)@.contains(y) || y == x),
        final(r)@.len() == old(r)@.len() + 1,
{
    let p = insert_position(units, r, x);
    let ghost before = r@;
    r.insert(p, x);
    assert(r@ =~= before.take(p as int).push(x) + before.skip(p as int));
    assert forall|i: int| 0 <= i < r@.len() - 1 implies #[trigger] name_ordered(units@, r@, i) by {
        if i + 1 < p {
            assert(r@[i] == before[i] && r@[i + 1] == before[i + 1]);
            assert(name_ordered(units@, before, i));
        } else if i + 1 == p {
            assert(r@[i] == before[i] && r@[i + 1] == x);
            assert(before[i] != x);
            assert(units@[before[i] as int].name@ != units@[x as int].name@);
            lemma_seq_lt_total(units@[before[i] as int].name@, units@[x as int].name@);
        } else if i == p {
            assert(r@[i] == x && r@[i + 1] == before[i]);
        } else {
            assert(r@[i] == before[i - 1] && r@[i + 1] == before[i]);
            assert(name_ordered(units@, before, i - 1));
        }
    }
    assert forall|a: int, b: int| 0 <= a < r@.len() && 0 <= b < r@.len() && a != b implies #[trigger] r@[a] != #[trigger] r@[b] by {
        if a != p && b != p {
            let a0 = if a < p { a } else { a - 1 };
            let b0 = if b < p { b } else { b - 1 };
            assert(r@[a] == before[a0] && r@[b] == before[b0]);
        } else if a == p {
            let b0 = if b < p { b } else { b - 1 };
            assert(r@[b] == before[b0]);
        } else {
            let a0 = if a < p { a } else { a - 1 };
            assert(r@[a] == before[a0]);
        }
    }
    assert forall|y: usize| r@.contains(y) <==> (before.contains(y) || y == x) by {
        if r@.contains(y) {
            let q = choose|q: int| 0 <= q < r@.len() && r@[q] == y;
            if q < p {
                assert(before[q] == y);
            } else if q > p {
                assert(before[q - 1] == y);
            }
        }
        if before.contains(y) {
            let q = choose|q: int| 0 <= q < before.len() && before[q] == y;
            if q < p {
                assert(r@[q] == y);
            } else {
                assert(r@[q + 1] == y);
            }
        }
        if y == x {
            assert(r@[p as int] == x);
        }
    }
    assert forall|i: int| 0 <= i < r@.len() implies #[trigger] r@[i] < units@.len() by {
        if i < p {
            assert(r@[i] == before[i]);
        } else if i > p {
            assert(r@[i] == before[i - 1]);
        }
    }
}

/// `keys` sorted by unit name.
#[verifier::rlimit(50)]
#[verifier::spinoff_prover]
fn sort_by_name(units: &Vec<Unit>, keys: &Vec<usize>) -> (r: Vec<usize>)
    requires
        names_unique(units@),
        forall|i: int| 0 <= i < keys@.len() ==> #[trigger] keys@[i] < units@.len(),
        forall|a: int, b: int| 0 <= a < keys@.len() && 0 <= b < keys@.len() && a != b ==> #[trigger] keys@[a] != #[trigger] keys@[b],
    ensures
        sorted_by_name(units@, r@),
        forall|x: usize| r@.contains(x) <==> keys@.contains(x),
        r@.len() == keys@.len(),
        forall|i: int| 0 <= i < r@.len() ==> #[trigger] r@[i] < units@.len(),
{
    let mut r: Vec<usize> = Vec::new();
    let mut m: usize = 0;
    while m < keys.len()
        invariant
            names_unique(units@),
            m <= keys@.len(),
            r@.len() == m,
            forall|i: int| 0 <= i < keys@.len() ==> #[trigger] keys@[i] < units@.len(),
            forall|a: int, b: int| 0 <= a < keys@.len() && 0 <= b < keys@.len() && a != b ==> #[trigger] keys@[a] != #[trigger] keys@[b],
            forall|i: int| 0 <= i < r@.len() ==> #[trigger] r@[i] < units@.len(),
            sorted_by_name(units@, r@),
            forall|x: usize| r@.contains(x) <==> keys@.take(m as int).contains(x),
        decreases keys@.len() - m,
    {
        let x = keys[m];
        assert(!r@.contains(x)) by {
            if r@.contains(x) {
                let q = choose|q: int| 0 <= q < m && keys@.take(m as int)[q] == x;
                assert(keys@[q] == keys@[m as int]);
            }
        }
        let ghost before = r@;
        insert_by_name(units, &mut r, x);
        assert(keys@.take(m + 1) =~= keys@.take(m as int).push(x));
        assert forall|y: usize| r@.contains(y) <==> keys@.take(m + 1).contains(y) by {
            if keys@.take(m + 1).contains(y) && y != x {
                let t = keys@.take(m + 1);
                let q = choose|q: int| 0 <= q < t.len() && #[trigger] t[q] == y;
                assert(keys@.take(m as int)[q] == y);
            }
            if y == x {
                assert(keys@.take(m + 1)[m as int] == x);
            }
        }
        m = m + 1;
    }
    assert(keys@.take(keys@.len() as int) =~= keys@);
    r
}

/// Appends `s` to `v` unless `v` holds it already.
fn push_absent(v: &mut Vec<String>, s: String)
    ensures
        strings_view(final(v)@) == if strings_view(old(v)@).contains(s@) {
            strings_view(old(v)@)
        } else {
            strings_view(old(v)@).push(s@)
        },
{
    let mut i: usize = 0;
    while i < v.len()
        invariant
            i <= v@.len(),
            forall|j: int| 0 <= j < i ==> v@[j]@ != s@,
        decreases v@.len() - i,
    {
        if str_eq(v[i].as_str(), s.as_str()) {
            assert(strings_view(v@)[i as int] == s@);
            return;
        }
        i = i + 1;
    }
    let ghost before = v@;
    assert(!strings_view(before).contains(s@)) by {
        if strings_view(before).contains(s@) {
            let j = choose|j: int| 0 <= j < strings_view(before).len() && strings_view(before)[j] == s@;
            assert(before[j]@ == s@);
        }
    }
    v.push(s);
    assert(strings_view(v@) =~= strings_view(before).push(s@));
}

} // verus!
