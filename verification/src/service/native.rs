//! Native OpenRC-style units: services with `need`, `use`, `before` and `after`,
//! runlevels and virtual names, sockets and targets.
use vstd::prelude::*;
use super::forge::{add_provides, error_text, inserted, lookup, ordering_prepended, service_kind, ForgeState, RestartPolicy, Unit,
    UnitKind};
use super::manifest::{ServiceManifest, ServiceType as ManifestServiceType};
use super::unit::{bad_line, command_view, optional_command, parse_watchdog, watchdog_of};
use crate::cgroup::ServiceLimits;
use crate::environment::pairs_view;
use crate::sandbox::SandboxConfig;
use crate::text::{concat, ends_with, lower, lower_seq, str_to_string, strings_view};
use super::systemd::service_type_of;

verus! {

/// How a native service tells that it has started.
#[derive(Debug, Clone, Copy, PartialEq, Eq, Structural)]
pub enum ServiceType {
    Simple,
    Forking,
    Oneshot,
    Dbus,
    Notify,
    NotifyReload,
}

impl Default for ServiceType {
    fn default() -> (r: Self)
        ensures
            r == ServiceType::Simple,
    {
        ServiceType::Simple
    }
}

/// The name of a native service type, as a unit file writes it.
pub open spec fn type_label(st: ServiceType) -> Seq<char> {
    match st {
        ServiceType::Simple => "simple"@,
        ServiceType::Forking => "forking"@,
        ServiceType::Oneshot => "oneshot"@,
        ServiceType::Dbus => "dbus"@,
        ServiceType::Notify => "notify"@,
        ServiceType::NotifyReload => "notify-reload"@,
    }
}

impl ServiceType {
    /// The name of the type in a unit file.
    pub fn label(&self) -> (r: &'static str)
        ensures
            r@ == type_label(*self),
    {
        match self {
            ServiceType::Simple => "simple",
            ServiceType::Forking => "forking",
            ServiceType::Oneshot => "oneshot",
            ServiceType::Dbus => "dbus",
            ServiceType::Notify => "notify",
            ServiceType::NotifyReload => "notify-reload",
        }
    }
}

/// The manager's service type for a native one.
pub open spec fn manifest_type(st: ServiceType) -> ManifestServiceType {
    match st {
        ServiceType::Simple => ManifestServiceType::Simple,
        ServiceType::Forking => ManifestServiceType::Forking,
        ServiceType::Oneshot => ManifestServiceType::Oneshot,
        ServiceType::Dbus => ManifestServiceType::Dbus,
        ServiceType::Notify => ManifestServiceType::Notify,
        ServiceType::NotifyReload => ManifestServiceType::NotifyReload,
    }
}

/// Maps a native service type to the manager's.
pub fn map_service_type(st: ServiceType) -> (r: ManifestServiceType)
    ensures
        r == manifest_type(st),
{
    match st {
        ServiceType::Simple => ManifestServiceType::Simple,
        ServiceType::Forking => ManifestServiceType::Forking,
        ServiceType::Oneshot => ManifestServiceType::Oneshot,
        ServiceType::Dbus => ManifestServiceType::Dbus,
        ServiceType::Notify => ManifestServiceType::Notify,
        ServiceType::NotifyReload => ManifestServiceType::NotifyReload,
    }
}

/// A native service.
#[derive(Debug)]
pub struct NativeService {
    pub name: String,
    pub description: Option<String>,
    pub command: String,
    pub args: Vec<String>,
    /// Hard dependencies, started first.
    pub need: Vec<String>,
    /// Soft dependencies, started first when present.
    pub use_: Vec<String>,
    /// Units this one starts ahead of.
    pub before: Vec<String>,
    /// Units started ahead of this one.
    pub after: Vec<String>,
    pub runlevels: Vec<String>,
    pub restart_policy: RestartPolicy,
    pub service_type: ServiceType,
    pub sockets: Vec<String>,
    pub exec_start_pre: Option<String>,
    pub bus_name: Option<String>,
    pub user: Option<String>,
    pub group: Option<String>,
    pub working_directory: Option<String>,
    pub environment: Vec<(String, String)>,
    pub environment_file: Option<String>,
    pub timeout_secs: Option<u64>,
    pub pidfile: Option<String>,
    pub cgroup: ServiceLimits,
    pub sandbox: SandboxConfig,
    /// Restart the service whenever it ends.
    pub supervise: bool,
    /// With `supervise`, restart it only when it fails.
    pub crash_on_start: bool,
    /// Virtual names the service provides.
    pub provides: Vec<String>,
    pub stop_cmd: Option<String>,
    pub stop_signal: Option<String>,
    pub reload_cmd: Option<String>,
    pub reload_signal: Option<String>,
    /// Watchdog interval: microseconds, or seconds or minutes with a suffix.
    pub watchdog: Option<String>,
}

impl Default for NativeService {
    fn default() -> (r: Self)
        ensures
            r.name@.len() == 0,
            r.description is None,
            r.command@.len() == 0,
            r.args@.len() == 0,
            r.need@.len() == 0,
            r.use_@.len() == 0,
            r.before@.len() == 0,
            r.after@.len() == 0,
            r.runlevels@.len() == 0,
            r.restart_policy == RestartPolicy::No,
            r.service_type == ServiceType::Simple,
            r.sockets@.len() == 0,
            r.exec_start_pre is None,
            r.bus_name is None,
            r.user is None,
            r.group is None,
            r.working_directory is None,
            r.environment@.len() == 0,
            r.environment_file is None,
            r.timeout_secs is None,
            r.pidfile is None,
            r.cgroup.memory_max is None,
            r.cgroup.tasks_max is None,
            !r.sandbox.private_tmp && !r.sandbox.protect_system && !r.sandbox.private_devices && !r.sandbox.no_new_privileges,
            !r.supervise,
            !r.crash_on_start,
            r.provides@.len() == 0,
            r.stop_cmd is None,
            r.stop_signal is None,
            r.reload_cmd is None,
            r.reload_signal is None,
            r.watchdog is None,
    {
        NativeService {
            name: String::new(),
            description: None,
            command: String::new(),
            args: Vec::new(),
            need: Vec::new(),
            use_: Vec::new(),
            before: Vec::new(),
            after: Vec::new(),
            runlevels: Vec::new(),
            restart_policy: RestartPolicy::No,
            service_type: ServiceType::Simple,
            sockets: Vec::new(),
            exec_start_pre: None,
            bus_name: None,
            user: None,
            group: None,
            working_directory: None,
            environment: Vec::new(),
            environment_file: None,
            timeout_secs: None,
            pidfile: None,
            cgroup: ServiceLimits { memory_max: None, tasks_max: None },
            sandbox: SandboxConfig::none(),
            supervise: false,
            crash_on_start: false,
            provides: Vec::new(),
            stop_cmd: None,
            stop_signal: None,
            reload_cmd: None,
            reload_signal: None,
            watchdog: None,
        }
    }
}

/// A native socket unit.
#[derive(Debug)]
pub struct NativeSocket {
    pub name: String,
    pub listen: Vec<String>,
    pub service: Option<String>,
    pub after: Vec<String>,
}

/// A native target.
#[derive(Debug)]
pub struct NativeTarget {
    pub name: String,
    pub requires: Vec<String>,
    pub wants: Vec<String>,
}

impl Default for NativeTarget {
    fn default() -> (r: Self)
        ensures
            r.name@.len() == 0,
            r.requires@.len() == 0,
            r.wants@.len() == 0,
    {
        NativeTarget { name: String::new(), requires: Vec::new(), wants: Vec::new() }
    }
}

/// A native unit file: a service, a socket or a target.
#[derive(Debug)]
pub enum NativeUnit {
    Service(NativeService),
    Socket(NativeSocket),
    Target(NativeTarget),
}

/// What a native unit file holds, by the stem of its name: `*.socket.toml` a
/// socket, `*.target.toml` a target, anything else a service.
pub fn native_unit_kind(stem: &str) -> (r: &'static str)
    ensures
        r@ == if ends_with(stem@, ".socket"@) {
            "socket"@
        } else if ends_with(stem@, ".target"@) {
            "target"@
        } else {
            "service"@
        },
{
    let v = crate::text::chars_of(stem);
    let s = crate::text::chars_of(".socket");
    let t = crate::text::chars_of(".target");
    if crate::text::has_suffix(v.as_slice(), s.as_slice()) {
        "socket"
    } else if crate::text::has_suffix(v.as_slice(), t.as_slice()) {
        "target"
    } else {
        "service"
    }
}

/// The restart policy of a native service: supervised services restart always,
/// or only on failure with `crash_on_start`; others follow `restart_policy`.
pub open spec fn native_restart(s: NativeService) -> RestartPolicy {
    if s.supervise {
        if s.crash_on_start { RestartPolicy::OnFailure } else { RestartPolicy::Always }
    } else {
        s.restart_policy
    }
}

/// `m` is the manifest of the native service `s` with `file_env` the pairs of its
/// environment file.
pub open spec fn native_manifest(m: ServiceManifest, s: NativeService, file_env: Seq<(Seq<char>, Seq<char>)>) -> bool {
    &&& m.name == s.name
    &&& m.exec_path == s.command
    &&& m.args == s.args
    &&& m.after == s.after
    &&& m.requires == s.need
    &&& m.wants == s.use_
    &&& m.sockets == s.sockets
    &&& m.restart == native_restart(s)
    &&& m.cgroup == s.cgroup
    &&& m.service_type == manifest_type(s.service_type)
    &&& pairs_view(m.environment@) == pairs_view(s.environment@) + file_env
    &&& command_view(m.exec_start_pre, match s.exec_start_pre { Some(l) => Some(l@), None => None })
    &&& m.bus_name == s.bus_name
    &&& m.sandbox == s.sandbox
    &&& m.user == s.user
    &&& m.group == s.group
    &&& m.working_directory == s.working_directory
    &&& m.runlevels == s.runlevels
    &&& m.timeout_secs == s.timeout_secs
    &&& m.pidfile == s.pidfile
    &&& m.provides == s.provides
    &&& command_view(m.stop_cmd, match s.stop_cmd { Some(l) => Some(l@), None => None })
    &&& m.stop_signal == s.stop_signal
    &&& command_view(m.reload_cmd, match s.reload_cmd { Some(l) => Some(l@), None => None })
    &&& m.reload_signal == s.reload_signal
    &&& m.watchdog_usec == match s.watchdog { Some(w) => watchdog_of(w@), None => None }
}

/// A native service cannot be registered: a command does not split into a
/// program, or its environment file could not be read.
pub open spec fn native_service_error(s: NativeService, env_file: Option<Result<Vec<(String, String)>, String>>) -> bool {
    bad_line(s.exec_start_pre) || bad_line(s.stop_cmd) || bad_line(s.reload_cmd) || env_file matches Some(Err(_))
}

/// `'name': e`, the tail of a registration error.
fn labelled(what: &str, name: &str, e: &str) -> (r: String)
    ensures
        r@ == what@ + "'"@ + name@ + "': "@ + e@,
{
    let a = concat(what, "'");
    let b = concat(a.as_str(), name);
    let c = concat(b.as_str(), "': ");
    concat(c.as_str(), e)
}

/// Registers a native service. `env_file` is what reading its environment file
/// gave: present exactly when the service names one.
pub fn register_native_service(
    state: &mut ForgeState,
    service: NativeService,
    env_file: Option<Result<Vec<(String, String)>, String>>,
) -> (r: Result<(), String>)
    requires
        old(state).wf(),
        env_file is Some <==> service.environment_file is Some,
    ensures
        final(state).wf(),
        final(state).same_settings(old(state)),
        r is Err <==> native_service_error(service, env_file),
        r matches Err(e) ==> e@ == service_error_text(service, env_file),
        r is Err ==> final(state).units() == old(state).units() && final(state).provides() == old(state).provides(),
        r is Ok ==> exists|m: ServiceManifest, k: int|
            native_manifest(m, service, match env_file { Some(Ok(v)) => pairs_view(v@), _ => Seq::empty() })
            && #[trigger] inserted(old(state).units(), final(state).units(), m.name@, service_kind(m), k)
            && final(state).provides() == add_provides(old(state).provides(), m.provides@, k as usize),
{
    let ghost gs = service;
    proof {
        reveal_strlit("exec-start-pre for ");
        reveal_strlit("stop-cmd for ");
        reveal_strlit("reload-cmd for ");
        reveal_strlit("Failed to load environment_file for ");
        reveal_strlit("'");
        reveal_strlit("': ");
    }
    let restart = if service.supervise {
        if service.crash_on_start { RestartPolicy::OnFailure } else { RestartPolicy::Always }
    } else {
        service.restart_policy
    };
    let exec_start_pre = match optional_command(service.exec_start_pre) {
        Ok(c) => c,
        Err(e) => {
            return Err(labelled("exec-start-pre for ", service.name.as_str(), e.as_str()));
        },
    };
    let stop_cmd = match optional_command(service.stop_cmd) {
        Ok(c) => c,
        Err(e) => {
            return Err(labelled("stop-cmd for ", service.name.as_str(), e.as_str()));
        },
    };
    let reload_cmd = match optional_command(service.reload_cmd) {
        Ok(c) => c,
        Err(e) => {
            return Err(labelled("reload-cmd for ", service.name.as_str(), e.as_str()));
        },
    };
    let mut environment = service.environment;
    let ghost e0 = pairs_view(environment@);
    match env_file {
        Some(Ok(vars)) => {
            let mut i: usize = 0;
            while i < vars.len()
                invariant
                    i <= vars@.len(),
                    pairs_view(environment@) == e0 + pairs_view(vars@).take(i as int),
                decreases vars@.len() - i,
            {
                let ghost before = pairs_view(environment@);
                environment.push((str_to_string(vars[i].0.as_str()), str_to_string(vars[i].1.as_str())));
                assert(pairs_view(environment@) =~= before.push((vars@[i as int].0@, vars@[i as int].1@)));
                assert(pairs_view(vars@).take(i + 1) =~= pairs_view(vars@).take(i as int).push((vars@[i as int].0@, vars@[i as int].1@)));
                i = i + 1;
            }
            assert(pairs_view(vars@).take(vars@.len() as int) =~= pairs_view(vars@));
        },
        Some(Err(e)) => {
            return Err(labelled("Failed to load environment_file for ", service.name.as_str(), e.as_str()));
        },
        None => {
            assert(e0 + Seq::<(Seq<char>, Seq<char>)>::empty() =~= e0);
        },
    }
    let watchdog_usec = match &service.watchdog {
        Some(w) => parse_watchdog(Some(w.as_str())),
        None => None,
    };
    let m = ServiceManifest {
        name: service.name,
        exec_path: service.command,
        args: service.args,
        after: service.after,
        requires: service.need,
        wants: service.use_,
        sockets: service.sockets,
        restart,
        cgroup: service.cgroup,
        service_type: map_service_type(service.service_type),
        environment,
        exec_start_pre,
        bus_name: service.bus_name,
        sandbox: service.sandbox,
        user: service.user,
        group: service.group,
        working_directory: service.working_directory,
        runlevels: service.runlevels,
        timeout_secs: service.timeout_secs,
        pidfile: service.pidfile,
        provides: service.provides,
        stop_cmd,
        stop_signal: service.stop_signal,
        reload_cmd,
        reload_signal: service.reload_signal,
        watchdog_usec,
    };
    let ghost gm = m;
    let k = state.register_service_manifest(m);
    assert(inserted(old(state).units(), state.units(), gm.name@, service_kind(gm), k->Ok_0 as int));
    Ok(())
}

/// Registers a native socket unit.
pub fn register_native_socket(state: &mut ForgeState, socket: NativeSocket) -> (r: Result<(), String>)
    requires
        old(state).wf(),
    ensures
        final(state).wf(),
        final(state).same_settings(old(state)),
        final(state).provides() == old(state).provides(),
        r is Ok,
        exists|k: int| #[trigger] inserted(old(state).units(), final(state).units(), socket.name@,
            UnitKind::Socket { listen: socket.listen, service: socket.service, after: socket.after, activation: None }, k),
{
    let ghost g = socket;
    let k = state.register_socket(socket.name, socket.listen, socket.service, socket.after);
    assert(inserted(old(state).units(), state.units(), g.name@,
        UnitKind::Socket { listen: g.listen, service: g.service, after: g.after, activation: None }, k->Ok_0 as int));
    Ok(())
}

/// Registers a native target.
pub fn register_native_target(state: &mut ForgeState, target: NativeTarget) -> (r: Result<(), String>)
    requires
        old(state).wf(),
    ensures
        final(state).wf(),
        final(state).same_settings(old(state)),
        final(state).provides() == old(state).provides(),
        r is Ok,
        exists|k: int| #[trigger] inserted(old(state).units(), final(state).units(), target.name@,
            UnitKind::Target { requires: target.requires, wants: target.wants }, k),
{
    let ghost g = target;
    let k = state.register_target(target.name, target.requires, target.wants);
    assert(inserted(old(state).units(), state.units(), g.name@,
        UnitKind::Target { requires: g.requires, wants: g.wants }, k->Ok_0 as int));
    Ok(())
}

/// A native unit file as read from disk: its path, what parsing it gave, and for
/// a service naming an environment file, what reading that file gave.
#[derive(Debug)]
pub struct NativeInput {
    pub path: String,
    pub unit: Result<NativeUnit, String>,
    pub env_file: Option<Result<Vec<(String, String)>, String>>,
}

/// The input is well formed: a service comes with its environment file exactly
/// when it names one.
pub open spec fn input_wf(i: NativeInput) -> bool {
    match i.unit {
        Ok(NativeUnit::Service(s)) => (i.env_file is Some <==> s.environment_file is Some),
        _ => true,
    }
}

/// The input cannot be registered.
pub open spec fn input_error(i: NativeInput) -> bool {
    match i.unit {
        Err(_) => true,
        Ok(NativeUnit::Service(s)) => native_service_error(s, i.env_file),
        _ => false,
    }
}

/// The names a registered service asks to start ahead of: its `before` names
/// paired with its own name.
pub open spec fn before_edges(inputs: Seq<NativeInput>) -> Seq<(Seq<char>, Seq<char>)>
    decreases inputs.len(),
{
    if inputs.len() == 0 {
        Seq::empty()
    } else {
        before_edges(inputs.drop_last()) + match inputs.last().unit {
            Ok(NativeUnit::Service(s)) => strings_view(s.before@).map_values(|to: Seq<char>| (s.name@, to)),
            _ => Seq::empty(),
        }
    }
}

/// How many of `inputs` cannot be registered.
pub open spec fn error_count(inputs: Seq<NativeInput>) -> nat
    decreases inputs.len(),
{
    if inputs.len() == 0 {
        0
    } else {
        error_count(inputs.drop_last()) + if input_error(inputs.last()) { 1nat } else { 0nat }
    }
}


/// The message of the first input that cannot be registered.
pub open spec fn first_error(inputs: Seq<NativeInput>) -> Seq<char>
    decreases inputs.len(),
{
    if inputs.len() == 0 {
        Seq::empty()
    } else if input_error(inputs[0]) {
        input_error_text(inputs[0])
    } else {
        first_error(inputs.drop_first())
    }
}

/// The message an input that cannot be registered fails with.
pub open spec fn input_error_text(i: NativeInput) -> Seq<char> {
    match i.unit {
        Err(e) => e@,
        Ok(NativeUnit::Service(s)) => service_error_text(s, i.env_file),
        _ => Seq::empty(),
    }
}

/// The message a native service that cannot be registered fails with.
pub open spec fn service_error_text(s: NativeService, env_file: Option<Result<Vec<(String, String)>, String>>) -> Seq<char> {
    if bad_line(s.exec_start_pre) {
        "exec-start-pre for "@ + "'"@ + s.name@ + "': "@ + command_error(s.exec_start_pre)
    } else if bad_line(s.stop_cmd) {
        "stop-cmd for "@ + "'"@ + s.name@ + "': "@ + command_error(s.stop_cmd)
    } else if bad_line(s.reload_cmd) {
        "reload-cmd for "@ + "'"@ + s.name@ + "': "@ + command_error(s.reload_cmd)
    } else {
        match env_file {
            Some(Err(e)) => "Failed to load environment_file for "@ + "'"@ + s.name@ + "': "@ + e@,
            _ => Seq::empty(),
        }
    }
}

/// Why a command line does not split into a program.
pub open spec fn command_error(l: Option<String>) -> Seq<char> {
    match l {
        Some(x) => if super::systemd::shell_split(x@) is None { "missing closing quote"@ } else { "ExecStart is empty"@ },
        None => Seq::empty(),
    }
}

/// The message of a `before` edge whose unit is unknown.
pub open spec fn edge_error(from: Seq<char>, to: Seq<char>) -> Seq<char> {
    "before ordering "@ + from + " -> "@ + to + ": "@ + "unit '"@ + to + "' not found"@
}

/// How many of `edges` name a unit that `units` lacks.
pub open spec fn failing_edges(units: Seq<super::forge::Unit>, edges: Seq<(Seq<char>, Seq<char>)>) -> nat
    decreases edges.len(),
{
    if edges.len() == 0 {
        0
    } else {
        failing_edges(units, edges.drop_last()) + if lookup(units, edges.last().1) is None { 1nat } else { 0nat }
    }
}

/// The environment pairs read from a service's environment file, if it was read.
pub open spec fn env_pairs(env_file: Option<Result<Vec<(String, String)>, String>>) -> Seq<(Seq<char>, Seq<char>)> {
    match env_file {
        Some(Ok(v)) => pairs_view(v@),
        _ => Seq::empty(),
    }
}

/// `after` is the unit table `before` once input `i` is registered: a service, socket
/// or target is inserted as `inserted` says; an input with an error changes nothing.
pub open spec fn input_registered(before: Seq<Unit>, after: Seq<Unit>, i: NativeInput) -> bool {
    match i.unit {
        Err(_) => after == before,
        Ok(NativeUnit::Service(s)) => if native_service_error(s, i.env_file) {
            after == before
        } else {
            exists|m: ServiceManifest, k: int| native_manifest(m, s, env_pairs(i.env_file))
                && #[trigger] inserted(before, after, m.name@, service_kind(m), k)
        },
        Ok(NativeUnit::Socket(so)) => exists|k: int| #[trigger] inserted(before, after, so.name@,
            UnitKind::Socket { listen: so.listen, service: so.service, after: so.after, activation: None }, k),
        Ok(NativeUnit::Target(t)) => exists|k: int| #[trigger] inserted(before, after, t.name@,
            UnitKind::Target { requires: t.requires, wants: t.wants }, k),
    }
}

/// `chain` runs through the unit tables as the inputs are registered in order:
/// `chain[i + 1]` is `chain[i]` once `inputs[i]` is registered.
pub open spec fn registration_chain(chain: Seq<Seq<Unit>>, inputs: Seq<NativeInput>) -> bool {
    &&& chain.len() == inputs.len() + 1
    &&& forall|i: int| 0 <= i < inputs.len() ==> #[trigger] input_registered(chain[i], chain[i + 1], inputs[i])
}

/// `after` is `before` once the edge `e` (from, to) is applied: where `to` names a
/// unit, `from` is added to that unit's ordering, at most once, and nothing else
/// changes; where it names none, nothing changes.
pub open spec fn edge_applied(before: Seq<Unit>, after: Seq<Unit>, e: (Seq<char>, Seq<char>)) -> bool {
    match lookup(before, e.1) {
        None => after == before,
        Some(k) => {
            &&& after.len() == before.len()
            &&& forall|j: int| 0 <= j < before.len() && j != k ==> #[trigger] after[j] == before[j]
            &&& after[k].name == before[k].name
            &&& after[k].state == before[k].state
            &&& after[k].dependencies == before[k].dependencies
            &&& after[k].last_exit == before[k].last_exit
            &&& ordering_prepended(before[k].kind, after[k].kind, e.0)
        },
    }
}

/// `chain` runs through the unit tables as the edges are applied in order.
pub open spec fn edge_chain(chain: Seq<Seq<Unit>>, edges: Seq<(Seq<char>, Seq<char>)>) -> bool {
    &&& chain.len() == edges.len() + 1
    &&& forall|i: int| 0 <= i < edges.len() ==> #[trigger] edge_applied(chain[i], chain[i + 1], edges[i])
}

/// The first input with an error, after error-free ones, gives the first error.
proof fn lemma_first_error(inputs: Seq<NativeInput>, i: int)
    requires
        0 <= i < inputs.len(),
        error_count(inputs.take(i)) == 0,
        input_error(inputs[i]),
    ensures
        first_error(inputs) == input_error_text(inputs[i]),
    decreases i,
{
    if i > 0 {
        lemma_no_error_prefix(inputs.take(i), 0);
        assert(!input_error(inputs[0])) by {
            assert(inputs.take(i)[0] == inputs[0]);
        }
        assert forall|j: int| 0 <= j < i - 1 implies !input_error(#[trigger] inputs.drop_first().take(i - 1)[j]) by {
            assert(inputs.drop_first().take(i - 1)[j] == inputs.take(i)[j + 1]);
            lemma_no_error_prefix(inputs.take(i), j + 1);
        }
        lemma_count_zero(inputs.drop_first().take(i - 1));
        lemma_first_error(inputs.drop_first(), i - 1);
    }
}

/// No input of a list without errors has an error.
proof fn lemma_no_error_prefix(inputs: Seq<NativeInput>, j: int)
    requires
        0 <= j < inputs.len(),
        error_count(inputs) == 0,
    ensures
        !input_error(inputs[j]),
    decreases inputs.len(),
{
    if j < inputs.len() - 1 {
        assert(inputs.drop_last()[j] == inputs[j]);
        lemma_no_error_prefix(inputs.drop_last(), j);
    }
}

/// A list none of whose inputs has an error counts no error.
proof fn lemma_count_zero(inputs: Seq<NativeInput>)
    requires
        forall|j: int| 0 <= j < inputs.len() ==> !input_error(#[trigger] inputs[j]),
    ensures
        error_count(inputs) == 0,
    decreases inputs.len(),
{
    if inputs.len() > 0 {
        assert forall|j: int| 0 <= j < inputs.drop_last().len() implies !input_error(#[trigger] inputs.drop_last()[j]) by {
            assert(inputs.drop_last()[j] == inputs[j]);
        }
        lemma_count_zero(inputs.drop_last());
    }
}

/// Units with the same names know the same name.
proof fn lemma_same_lookup(u1: Seq<super::forge::Unit>, u2: Seq<super::forge::Unit>, x: Seq<char>)
    requires
        u1.len() == u2.len(),
        forall|k: int| 0 <= k < u1.len() ==> (#[trigger] u1[k]).name == u2[k].name,
    ensures
        (lookup(u1, x) is None) == (lookup(u2, x) is None),
{
    if lookup(u1, x) is Some {
        let i = choose|i: int| 0 <= i < u1.len() && (#[trigger] u1[i]).name@ == x;
        assert(u2[i].name@ == x);
    }
    if lookup(u2, x) is Some {
        let i = choose|i: int| 0 <= i < u2.len() && (#[trigger] u2[i]).name@ == x;
        assert(u1[i].name@ == x);
    }
}

/// Units with the same names fail the same edges.
proof fn lemma_same_names(u1: Seq<super::forge::Unit>, u2: Seq<super::forge::Unit>, edges: Seq<(Seq<char>, Seq<char>)>)
    requires
        u1.len() == u2.len(),
        forall|k: int| 0 <= k < u1.len() ==> (#[trigger] u1[k]).name == u2[k].name,
    ensures
        failing_edges(u1, edges) == failing_edges(u2, edges),
    decreases edges.len(),
{
    if edges.len() > 0 {
        lemma_same_names(u1, u2, edges.drop_last());
        lemma_same_lookup(u1, u2, edges.last().1);
    }
}

/// An input with an error makes the error count positive.
proof fn lemma_error_count_pos(inputs: Seq<NativeInput>, i: int)
    requires
        0 <= i < inputs.len(),
        input_error(inputs[i]),
    ensures
        error_count(inputs) > 0,
    decreases inputs.len(),
{
    if i < inputs.len() - 1 {
        assert(inputs.drop_last()[i] == inputs[i]);
        lemma_error_count_pos(inputs.drop_last(), i);
    }
}

/// Loads native unit files in order. Each parsed service first records its
/// `before` edges; once all units are registered, each edge orders the service
/// ahead of the unit it names. Without `lenient` the first failure is returned;
/// with it the failures are counted and reported together.
pub fn load_native_units(state: &mut ForgeState, inputs: Vec<NativeInput>, lenient: bool) -> (r: Result<(), String>)
    requires
        old(state).wf(),
        forall|i: int| 0 <= i < inputs@.len() ==> input_wf(#[trigger] inputs@[i]),
    ensures
        final(state).wf(),
        final(state).same_settings(old(state)),
        !lenient && error_count(inputs@) > 0 ==> (r matches Err(e) && e@ == first_error(inputs@)),
        !lenient && error_count(inputs@) == 0 ==> (r is Ok <==> failing_edges(final(state).units(), before_edges(inputs@)) == 0),
        lenient ==> (r is Ok <==> error_count(inputs@) + failing_edges(final(state).units(), before_edges(inputs@)) == 0),
        lenient && r is Err ==> (r matches Err(e) && e@ == crate::text::decimal(
            error_count(inputs@) + failing_edges(final(state).units(), before_edges(inputs@)))
            + " native unit(s) skipped due to errors"@),
        !lenient && error_count(inputs@) > 0 ==> exists|p: int, rc: Seq<Seq<Unit>>|
            #![trigger registration_chain(rc, inputs@.take(p))]
            0 <= p < inputs@.len() && input_error(inputs@[p]) && error_count(inputs@.take(p)) == 0
            && registration_chain(rc, inputs@.take(p)) && rc[0] == old(state).units()
            && rc.last() == final(state).units(),
        lenient || error_count(inputs@) == 0 ==> exists|rc: Seq<Seq<Unit>>, ec: Seq<Seq<Unit>>, n: int|
            #![trigger registration_chain(rc, inputs@), edge_chain(ec, before_edges(inputs@).take(n))]
            registration_chain(rc, inputs@) && rc[0] == old(state).units()
            && 0 <= n <= before_edges(inputs@).len()
            && edge_chain(ec, before_edges(inputs@).take(n)) && ec[0] == rc.last() && ec.last() == final(state).units()
            && (lenient || failing_edges(rc.last(), before_edges(inputs@)) == 0 ==> n == before_edges(inputs@).len())
            && (!lenient && failing_edges(rc.last(), before_edges(inputs@)) > 0 ==> n < before_edges(inputs@).len()
                && lookup(rc.last(), before_edges(inputs@)[n].1) is None
                && failing_edges(rc.last(), before_edges(inputs@).take(n)) == 0
                && (r matches Err(e) && e@ == edge_error(before_edges(inputs@)[n].0, before_edges(inputs@)[n].1))),
{
    proof {
        reveal_strlit("before ordering ");
        reveal_strlit(" -> ");
        reveal_strlit(": ");
        reveal_strlit(" native unit(s) skipped due to errors");
    }
    let ghost all = inputs@;
    let mut rest = inputs;
    let mut errors: Vec<String> = Vec::new();
    let mut edges: Vec<(String, String)> = Vec::new();
    let ghost mut i: int = 0;
    let ghost mut rc: Seq<Seq<Unit>> = seq![state.units()];
    assert(all.skip(0) =~= all);
    assert(all.take(0) =~= Seq::<NativeInput>::empty());
    while rest.len() > 0
        invariant
            all == inputs@,
            0 <= i <= all.len(),
            registration_chain(rc, all.take(i)),
            rc[0] == old(state).units(),
            rc.last() == state.units(),
            rest@ == all.skip(i),
            forall|q: int| 0 <= q < all.len() ==> input_wf(#[trigger] all[q]),
            state.wf(),
            state.same_settings(old(state)),
            lenient ==> errors@.len() == error_count(all.take(i)),
            !lenient ==> error_count(all.take(i)) == 0,
            edges@.map_values(|e: (String, String)| (e.0@, e.1@)) == before_edges(all.take(i)),
        decreases rest@.len(),
    {
        let input = rest.remove(0);
        assert(input == all[i]);
        let ghost u0 = state.units();
        assert(all.take(i + 1).drop_last() =~= all.take(i));
        assert(all.take(i + 1).last() == all[i]);
        assert(rest@ =~= all.skip(i + 1));
        let ghost before_e = edges@.map_values(|e: (String, String)| (e.0@, e.1@));
        let ghost ein = input;
        match input.unit {
            Err(e) => {
                if !lenient {
                    proof {
                        lemma_first_error(all, i);
                        lemma_error_count_pos(all, i);
                        assert(registration_chain(rc, all.take(i)));
                    }
                    return Err(e);
                }
                errors.push(e);
                assert(edges@.map_values(|e: (String, String)| (e.0@, e.1@)) =~= before_e + Seq::<(Seq<char>, Seq<char>)>::empty());
            },
            Ok(NativeUnit::Service(service)) => {
                let mut b: usize = 0;
                let ghost sb = strings_view(service.before@).map_values(|to: Seq<char>| (service.name@, to));
                assert(sb.take(0) =~= Seq::<(Seq<char>, Seq<char>)>::empty());
                while b < service.before.len()
                    invariant
                        b <= service.before@.len(),
                        sb == strings_view(service.before@).map_values(|to: Seq<char>| (service.name@, to)),
                        edges@.map_values(|e: (String, String)| (e.0@, e.1@)) == before_e + sb.take(b as int),
                    decreases service.before@.len() - b,
                {
                    let ghost pre = edges@.map_values(|e: (String, String)| (e.0@, e.1@));
                    edges.push((str_to_string(service.name.as_str()), str_to_string(service.before[b].as_str())));
                    assert(edges@.map_values(|e: (String, String)| (e.0@, e.1@)) =~= pre.push((service.name@, service.before@[b as int]@)));
                    assert(sb.take(b + 1) =~= sb.take(b as int).push((service.name@, service.before@[b as int]@)));
                    b = b + 1;
                }
                assert(sb.take(service.before@.len() as int) =~= sb);
                match register_native_service(state, service, input.env_file) {
                    Ok(()) => {},
                    Err(e) => {
                        if !lenient {
                            proof {
                                lemma_first_error(all, i);
                                lemma_error_count_pos(all, i);
                                assert(registration_chain(rc, all.take(i)));
                            }
                            return Err(e);
                        }
                        errors.push(e);
                    },
                }
            },
            Ok(NativeUnit::Socket(socket)) => {
                let _ = register_native_socket(state, socket);
                assert(edges@.map_values(|e: (String, String)| (e.0@, e.1@)) =~= before_e + Seq::<(Seq<char>, Seq<char>)>::empty());
            },
            Ok(NativeUnit::Target(target)) => {
                let _ = register_native_target(state, target);
                assert(edges@.map_values(|e: (String, String)| (e.0@, e.1@)) =~= before_e + Seq::<(Seq<char>, Seq<char>)>::empty());
            },
        }
        proof {
            assert(input_registered(u0, state.units(), ein));
            let rc2 = rc.push(state.units());
            assert forall|q: int| 0 <= q < all.take(i + 1).len() implies #[trigger] input_registered(rc2[q], rc2[q + 1], all.take(i + 1)[q]) by {
                if q < i {
                    assert(all.take(i + 1)[q] == all.take(i)[q]);
                    assert(input_registered(rc[q], rc[q + 1], all.take(i)[q]));
                } else {
                    assert(all.take(i + 1)[q] == ein);
                }
            }
            rc = rc2;
            i = i + 1;
        }
    }
    assert(all.take(all.len() as int) =~= all);
    let ghost mid = state.units();
    let ghost ev = before_edges(all);
    let ghost e0 = errors@.len();
    let mut j: usize = 0;
    let ghost mut ec: Seq<Seq<Unit>> = seq![state.units()];
    assert(ev.take(0) =~= Seq::<(Seq<char>, Seq<char>)>::empty());
    while j < edges.len()
        invariant
            all == inputs@,
            registration_chain(rc, all),
            rc[0] == old(state).units(),
            rc.last() == mid,
            edge_chain(ec, ev.take(j as int)),
            ec[0] == mid,
            ec.last() == state.units(),
            ev == before_edges(all),
            j <= edges@.len(),
            edges@.map_values(|e: (String, String)| (e.0@, e.1@)) == ev,
            state.wf(),
            state.same_settings(old(state)),
            state.units().len() == mid.len(),
            forall|k: int| 0 <= k < mid.len() ==> (#[trigger] state.units()[k]).name == mid[k].name,
            lenient ==> errors@.len() == e0 + failing_edges(mid, ev.take(j as int)),
            lenient ==> e0 == error_count(all),
            !lenient ==> failing_edges(mid, ev.take(j as int)) == 0 && error_count(all) == 0,
        decreases edges@.len() - j,
    {
        assert(ev.take(j + 1).drop_last() =~= ev.take(j as int));
        assert(ev.take(j + 1).last() == ev[j as int]);
        assert(ev[j as int] == (edges@[j as int].0@, edges@[j as int].1@));
        let ghost cur = state.units();
        proof {
            lemma_same_lookup(cur, mid, ev[j as int].1);
        }
        let from = &edges[j].0;
        let to = &edges[j].1;
        let ghost ej = ev[j as int];
        let ghost ec_prev = ec;
        let pr = state.prepend_ordering(to.as_str(), from.as_str());
        proof {
            assert(edge_applied(cur, state.units(), ej));
            let ec2 = ec.push(state.units());
            assert forall|q: int| 0 <= q < ev.take(j + 1).len() implies #[trigger] edge_applied(ec2[q], ec2[q + 1], ev.take(j + 1)[q]) by {
                if q < j {
                    assert(ev.take(j + 1)[q] == ev.take(j as int)[q]);
                    assert(edge_applied(ec[q], ec[q + 1], ev.take(j as int)[q]));
                } else {
                    assert(ev.take(j + 1)[q] == ej);
                }
            }
            if lookup(cur, ej.1) is None {
                assert(edge_chain(ec, ev.take(j as int)));
            }
            ec = ec2;
        }
        match pr {
            Ok(()) => {
                assert(lookup(cur, to@) is Some);
            },
            Err(e) => {
                let text = e.message();
                let a = concat("before ordering ", from.as_str());
                let b = concat(a.as_str(), " -> ");
                let c = concat(b.as_str(), to.as_str());
                let d = concat(c.as_str(), ": ");
                let msg = concat(d.as_str(), text.as_str());
                if !lenient {
                    proof {
                        lemma_same_names(state.units(), mid, ev);
                        assert(failing_edges(mid, ev.take(j + 1)) > 0);
                        lemma_failing_prefix(mid, ev, j as int + 1);
                        assert(lookup(mid, ej.1) is None);
                        assert(msg@ == edge_error(ej.0, ej.1));
                        assert(edge_chain(ec_prev, before_edges(inputs@).take(j as int)));
                        assert(registration_chain(rc, inputs@));
                    }
                    return Err(msg);
                }
                errors.push(msg);
            },
        }
        j = j + 1;
    }
    assert(ev.take(edges@.len() as int) =~= ev);
    proof {
        lemma_same_names(state.units(), mid, ev);
    }
    proof {
        assert(edge_chain(ec, before_edges(inputs@).take(edges@.len() as int)));
        assert(registration_chain(rc, inputs@));
    }
    if lenient && errors.len() > 0 {
        let n = crate::text::u64_to_string(errors.len() as u64);
        return Err(concat(n.as_str(), " native unit(s) skipped due to errors"));
    }
    Ok(())
}

/// A failing edge in a prefix is a failing edge of the whole list.
proof fn lemma_failing_prefix(units: Seq<super::forge::Unit>, edges: Seq<(Seq<char>, Seq<char>)>, j: int)
    requires
        0 <= j <= edges.len(),
    ensures
        failing_edges(units, edges.take(j)) <= failing_edges(units, edges),
    decreases edges.len() - j,
{
    if j < edges.len() {
        lemma_failing_prefix(units, edges, j + 1);
        assert(edges.take(j + 1).drop_last() =~= edges.take(j));
    } else {
        assert(edges.take(j) =~= edges);
    }
}

/// The native and the systemd mappings of service types agree: a native type maps to
/// the manager type that a systemd `Type=` of the native type's name gives.
pub proof fn law_service_type_mappings_agree(st: ServiceType)
    ensures
        manifest_type(st) == service_type_of(type_label(st)),
{
    reveal_strlit("simple");
    reveal_strlit("forking");
    reveal_strlit("oneshot");
    reveal_strlit("dbus");
    reveal_strlit("notify");
    reveal_strlit("notify-reload");
    let names = seq!["simple"@, "forking"@, "oneshot"@, "dbus"@, "notify"@, "notify-reload"@];
    assert forall|a: Seq<char>| names.contains(a) implies #[trigger] lower_seq(a) =~= a by {
        let k = choose|k: int| 0 <= k < names.len() && names[k] == a;
        assert forall|i: int| 0 <= i < a.len() implies lower(a[i]) == a[i] by {
            if k == 0 { assert(a =~= seq!['s', 'i', 'm', 'p', 'l', 'e']); }
            else if k == 1 { assert(a =~= seq!['f', 'o', 'r', 'k', 'i', 'n', 'g']); }
            else if k == 2 { assert(a =~= seq!['o', 'n', 'e', 's', 'h', 'o', 't']); }
            else if k == 3 { assert(a =~= seq!['d', 'b', 'u', 's']); }
            else if k == 4 { assert(a =~= seq!['n', 'o', 't', 'i', 'f', 'y']); }
            else { assert(a =~= seq!['n', 'o', 't', 'i', 'f', 'y', '-', 'r', 'e', 'l', 'o', 'a', 'd']); }
        }
    }
    assert(names.contains(names[0]) && names.contains(names[1]) && names.contains(names[2]));
    assert(names.contains(names[3]) && names.contains(names[4]) && names.contains(names[5]));
    assert(lower_seq("simple"@) == "simple"@);
    assert(lower_seq("forking"@) == "forking"@);
    assert(lower_seq("oneshot"@) == "oneshot"@);
    assert(lower_seq("dbus"@) == "dbus"@);
    assert(lower_seq("notify"@) == "notify"@);
    assert(lower_seq("notify-reload"@) == "notify-reload"@);
    assert("simple"@[0] != "notify"@[0]);
    assert("forking"@[0] != "oneshot"@[0]);
}

/// The restart policy a native service registers with: `supervise` restarts it after
/// every exit, or only after a failed one with `crash_on_start`, whatever its
/// `restart_policy` says; without `supervise` its `restart_policy` stands.
pub proof fn law_native_restart_policy(m: ServiceManifest, s: NativeService, file_env: Seq<(Seq<char>, Seq<char>)>)
    requires
        native_manifest(m, s, file_env),
    ensures
        s.supervise && !s.crash_on_start ==> m.restart == RestartPolicy::Always,
        s.supervise && s.crash_on_start ==> m.restart == RestartPolicy::OnFailure,
        !s.supervise ==> m.restart == s.restart_policy,
        service_kind(m) matches UnitKind::Service { restart, .. } && restart == m.restart,
{
}

/// The dependencies of a native service: what it `need`s it requires, what it
/// `use`s it wants, and its `after` names order it.
pub proof fn law_native_dependencies(m: ServiceManifest, s: NativeService, file_env: Seq<(Seq<char>, Seq<char>)>)
    requires
        native_manifest(m, s, file_env),
    ensures
        strings_view(m.requires@) == strings_view(s.need@),
        strings_view(m.wants@) == strings_view(s.use_@),
        strings_view(m.after@) == strings_view(s.after@),
        service_kind(m) matches UnitKind::Service { requires: r, wants: w, after: o, .. }
            && r == m.requires && w == m.wants && o == m.after,
{
}

/// A supervised native service without `crash_on_start` that registers under a new
/// name becomes a service unit with the `Always` restart policy, whatever its
/// `restart_policy` field says.
pub proof fn law_supervised_service_registers_always(
    m: ServiceManifest,
    s: NativeService,
    file_env: Seq<(Seq<char>, Seq<char>)>,
    units0: Seq<Unit>,
    units1: Seq<Unit>,
    k: int,
)
    requires
        native_manifest(m, s, file_env),
        lookup(units0, m.name@) is None,
        inserted(units0, units1, m.name@, service_kind(m), k),
        s.supervise,
        !s.crash_on_start,
    ensures
        0 <= k < units1.len(),
        units1[k].name@ == s.name@,
        units1[k].kind matches UnitKind::Service { restart, .. } && restart == RestartPolicy::Always,
{
    law_native_restart_policy(m, s, file_env);
}

} // verus!
