//! Turning unit files into registered units.
use vstd::prelude::*;
use super::forge::{inserted, service_kind, ForgeState, RestartPolicy, Unit, UnitKind};
use super::manifest::{DeviceManifest, MountManifest, ServiceManifest, ServiceType, TimerManifest};
use super::systemd::{
    environment_pairs, listed_names, normalize_unit_name, normalized, parse_exec_start, restart_of,
    service_type_of, shell_split, unit_wf, values_of, collect_service_environment, map_restart,
    map_service_type, SystemdUnit,
};
use crate::cgroup::ServiceLimits;
use crate::environment::pairs_view;
use super::dropin::{apply_conf_dropin, merge_toml_dropin, raw_env_pairs, string_entries, string_items, TomlDropin};
use crate::sandbox::{flag_on, protect_mode, SandboxConfig};
use crate::text::{
    chars_of, concat, parse_u64, parse_unsigned, str_to_string, strings_view, strip_suffix,
    strip_suffix_str, trim, trim_str, words,
};

verus! {

/// A watchdog interval in microseconds: a bare number of microseconds, or a number
/// of seconds (`s`, `sec`) or minutes (`m`, `min`); a value past `u64` gives nothing.
pub open spec fn watchdog_of(s: Seq<char>) -> Option<u64> {
    let t = trim(s);
    let secs = if strip_suffix(t, "s"@) is Some { strip_suffix(t, "s"@) } else { strip_suffix(t, "sec"@) };
    let mins = if strip_suffix(t, "m"@) is Some { strip_suffix(t, "m"@) } else { strip_suffix(t, "min"@) };
    if parse_unsigned(t, u64::MAX as nat) is Some {
        Some(parse_unsigned(t, u64::MAX as nat)->0 as u64)
    } else if secs is Some && parse_unsigned(trim(secs->0), u64::MAX as nat) is Some
        && parse_unsigned(trim(secs->0), u64::MAX as nat)->0 * 1_000_000 <= u64::MAX {
        Some((parse_unsigned(trim(secs->0), u64::MAX as nat)->0 * 1_000_000) as u64)
    } else if mins is Some && parse_unsigned(trim(mins->0), u64::MAX as nat) is Some
        && parse_unsigned(trim(mins->0), u64::MAX as nat)->0 * 60_000_000 <= u64::MAX {
        Some((parse_unsigned(trim(mins->0), u64::MAX as nat)->0 * 60_000_000) as u64)
    } else {
        None
    }
}

/// The number `num` names, trimmed, scaled by `factor` unless that overflows.
fn scaled_number(num: &str, factor: u64) -> (r: Option<u64>)
    ensures
        r == (if parse_unsigned(trim(num@), u64::MAX as nat) is Some
            && parse_unsigned(trim(num@), u64::MAX as nat)->0 * factor <= u64::MAX {
            Some((parse_unsigned(trim(num@), u64::MAX as nat)->0 * factor) as u64)
        } else {
            None
        }),
{
    let t = trim_str(num);
    match parse_u64(t.as_str()) {
        Some(n) => n.checked_mul(factor),
        None => None,
    }
}

/// Parses a watchdog interval.
pub fn parse_watchdog(s: Option<&str>) -> (r: Option<u64>)
    ensures
        r == match s {
            Some(v) => watchdog_of(v@),
            None => None,
        },
{
    let v = match s {
        Some(v) => v,
        None => {
            return None;
        },
    };
    proof {
        reveal_strlit("s");
        reveal_strlit("sec");
        reveal_strlit("m");
        reveal_strlit("min");
    }
    let t = trim_str(v);
    match parse_u64(t.as_str()) {
        Some(us) => {
            return Some(us);
        },
        None => {},
    }
    let secs = match strip_suffix_str(t.as_str(), "s") {
        Some(n) => Some(n),
        None => strip_suffix_str(t.as_str(), "sec"),
    };
    match secs {
        Some(n) => {
            match scaled_number(n.as_str(), 1_000_000) {
                Some(us) => {
                    return Some(us);
                },
                None => {},
            }
        },
        None => {},
    }
    let mins = match strip_suffix_str(t.as_str(), "m") {
        Some(n) => Some(n),
        None => strip_suffix_str(t.as_str(), "min"),
    };
    match mins {
        Some(n) => scaled_number(n.as_str(), 60_000_000),
        None => None,
    }
}

/// `opt` holds the string `s`, or nothing when `s` is nothing.
pub open spec fn opt_view(opt: Option<String>, s: Option<Seq<char>>) -> bool {
    match s {
        Some(x) => opt matches Some(y) && y@ == x,
        None => opt is None,
    }
}

/// The first value of `key` in `section`, if any.
pub open spec fn first_value(m: Map<Seq<char>, Map<Seq<char>, Seq<Seq<char>>>>, section: Seq<char>, key: Seq<char>) -> Option<Seq<char>> {
    let v = values_of(m, section, key);
    if v.len() > 0 { Some(v[0]) } else { None }
}

/// A command line `opt` holds what `line` splits into: nothing without a line.
pub open spec fn command_view(opt: Option<(String, Vec<String>)>, line: Option<Seq<char>>) -> bool {
    match line {
        None => opt is None,
        Some(l) => match shell_split(l) {
            Some(w) => w.len() > 0 && (opt matches Some(c) && c.0@ == w[0] && strings_view(c.1@) == w.drop_first()),
            None => false,
        },
    }
}

/// A command line that does not split into a program: its quotes do not close, or it is empty.
pub open spec fn bad_command(line: Option<Seq<char>>) -> bool {
    line matches Some(l) && (shell_split(l) is None || shell_split(l)->0.len() == 0)
}

/// `m` is the service a systemd unit file describes, with the pairs of its
/// environment files `file_env`.
pub open spec fn systemd_service(m: ServiceManifest, u: Map<Seq<char>, Map<Seq<char>, Seq<Seq<char>>>>, name: Seq<char>, file_env: Seq<(Seq<char>, Seq<char>)>) -> bool {
    let exec = shell_split(first_value(u, "Service"@, "ExecStart"@)->0)->0;
    &&& m.name@ == name
    &&& m.exec_path@ == exec[0]
    &&& strings_view(m.args@) == exec.drop_first()
    &&& m.restart == match first_value(u, "Service"@, "Restart"@) { Some(v) => restart_of(v), None => RestartPolicy::No }
    &&& m.service_type == match first_value(u, "Service"@, "Type"@) { Some(v) => service_type_of(v), None => ServiceType::Simple }
    &&& opt_view(m.bus_name, first_value(u, "Service"@, "BusName"@))
    &&& strings_view(m.after@) == listed_names(values_of(u, "Unit"@, "After"@))
    &&& strings_view(m.requires@) == listed_names(values_of(u, "Unit"@, "Requires"@))
    &&& strings_view(m.wants@) == listed_names(values_of(u, "Unit"@, "Wants"@))
    &&& strings_view(m.sockets@) == listed_names(values_of(u, "Service"@, "Sockets"@))
    &&& pairs_view(m.environment@) == file_env + environment_pairs(values_of(u, "Service"@, "Environment"@))
    &&& command_view(m.exec_start_pre, first_value(u, "Service"@, "ExecStartPre"@))
    &&& opt_view(m.cgroup.memory_max, first_value(u, "Service"@, "MemoryMax"@))
    &&& m.cgroup.tasks_max == match first_value(u, "Service"@, "TasksMax"@) {
        Some(v) => match parse_unsigned(v, u64::MAX as nat) { Some(n) => Some(n as u64), None => None },
        None => None,
    }
    &&& m.sandbox.private_tmp == flag_on(u, "PrivateTmp"@)
    &&& m.sandbox.protect_system == (protect_mode(u) || flag_on(u, "ProtectSystem"@))
    &&& m.sandbox.private_devices == flag_on(u, "PrivateDevices"@)
    &&& m.sandbox.no_new_privileges == flag_on(u, "NoNewPrivileges"@)
    &&& opt_view(m.user, first_value(u, "Service"@, "User"@))
    &&& opt_view(m.group, first_value(u, "Service"@, "Group"@))
    &&& opt_view(m.working_directory, first_value(u, "Service"@, "WorkingDirectory"@))
    &&& m.runlevels@.len() == 0
    &&& m.timeout_secs is None
    &&& m.pidfile is None
    &&& m.provides@.len() == 0
    &&& command_view(m.stop_cmd, first_value(u, "Service"@, "ExecStop"@))
    &&& opt_view(m.stop_signal, first_value(u, "Service"@, "KillSignal"@))
    &&& command_view(m.reload_cmd, first_value(u, "Service"@, "ExecReload"@))
    &&& m.reload_signal is None
    &&& m.watchdog_usec == match first_value(u, "Service"@, "WatchdogSec"@) { Some(v) => watchdog_of(v), None => None }
}

/// The first value of `key` in `section`.
fn get_first(unit: &SystemdUnit, section: &str, key: &str) -> (r: Option<String>)
    requires
        unit_wf(unit.sections@),
    ensures
        opt_view(r, first_value(unit.view_map(), section@, key@)),
{
    unit.get(section, key)
}

/// Splits the command line `line`, if there is one.
pub(crate) fn optional_command(line: Option<String>) -> (r: Result<Option<(String, Vec<String>)>, String>)
    ensures
        r is Err <==> bad_command(match line { Some(l) => Some(l@), None => None }),
        r matches Ok(c) ==> command_view(c, match line { Some(l) => Some(l@), None => None }),
        r matches Err(e) ==> match line {
            Some(l) => match shell_split(l@) {
                None => e@ == "missing closing quote"@,
                Some(w) => w.len() == 0 && e@ == "ExecStart is empty"@,
            },
            None => false,
        },
{
    match line {
        Some(l) => match parse_exec_start(l.as_str()) {
            Ok(c) => Ok(Some(c)),
            Err(e) => Err(e),
        },
        None => Ok(None),
    }
}

/// The error of a unit file that lacks a required setting.
pub open spec fn missing_message(path: Seq<char>, what: Seq<char>) -> Seq<char> {
    path + " missing "@ + what
}

/// Registers the service a systemd unit file at `path` describes, under `name`.
/// `file_env` holds the pairs of its environment files. Fails without `ExecStart=`,
/// or when `ExecStart=`, `ExecStartPre=`, `ExecStop=` or `ExecReload=` does not
/// split into a program.
pub fn load_systemd_service(
    state: &mut ForgeState,
    unit: &SystemdUnit,
    name: String,
    path: &str,
    file_env: Vec<(String, String)>,
) -> (r: Result<(), String>)
    requires
        old(state).wf(),
        unit_wf(unit.sections@),
    ensures
        final(state).wf(),
        final(state).same_settings(old(state)),
        final(state).provides() == old(state).provides(),
        service_loaded(old(state).units(), final(state).units(), unit.view_map(), name@, path@, pairs_view(file_env@), r),
{
    proof {
        reveal_strlit(" missing ");
        reveal_strlit("ExecStart");
    }
    let exec_start = match get_first(unit, "Service", "ExecStart") {
        Some(l) => l,
        None => {
            let head = concat(path, " missing ");
            return Err(concat(head.as_str(), "ExecStart"));
        },
    };
    let (exec, args) = match parse_exec_start(exec_start.as_str()) {
        Ok(c) => c,
        Err(e) => {
            return Err(e);
        },
    };
    let restart = match get_first(unit, "Service", "Restart") {
        Some(v) => map_restart(v.as_str()),
        None => RestartPolicy::No,
    };
    let service_type = match get_first(unit, "Service", "Type") {
        Some(v) => map_service_type(v.as_str()),
        None => ServiceType::Simple,
    };
    let bus_name = get_first(unit, "Service", "BusName");
    let after = unit.list("Unit", "After");
    let needs = unit.list("Unit", "Requires");
    let wants = unit.list("Unit", "Wants");
    let sockets = unit.list("Service", "Sockets");
    let environment = collect_service_environment(unit, file_env);
    let exec_start_pre = match optional_command(get_first(unit, "Service", "ExecStartPre")) {
        Ok(c) => c,
        Err(e) => {
            return Err(e);
        },
    };
    let tasks_max = match get_first(unit, "Service", "TasksMax") {
        Some(v) => parse_u64(v.as_str()),
        None => None,
    };
    let limits = ServiceLimits { memory_max: get_first(unit, "Service", "MemoryMax"), tasks_max };
    let sandbox = SandboxConfig::from_systemd_unit(unit);
    let user = get_first(unit, "Service", "User");
    let group = get_first(unit, "Service", "Group");
    let working_directory = get_first(unit, "Service", "WorkingDirectory");
    let stop_cmd = match optional_command(get_first(unit, "Service", "ExecStop")) {
        Ok(c) => c,
        Err(e) => {
            return Err(e);
        },
    };
    let stop_signal = get_first(unit, "Service", "KillSignal");
    let reload_cmd = match optional_command(get_first(unit, "Service", "ExecReload")) {
        Ok(c) => c,
        Err(e) => {
            return Err(e);
        },
    };
    let watchdog = get_first(unit, "Service", "WatchdogSec");
    let watchdog_usec = match &watchdog {
        Some(w) => parse_watchdog(Some(w.as_str())),
        None => None,
    };
    let m = ServiceManifest {
        name,
        exec_path: exec,
        args,
        after,
        requires: needs,
        wants,
        sockets,
        restart,
        cgroup: limits,
        service_type,
        environment,
        exec_start_pre,
        bus_name,
        sandbox,
        user,
        group,
        working_directory,
        runlevels: Vec::new(),
        timeout_secs: None,
        pidfile: None,
        provides: Vec::new(),
        stop_cmd,
        stop_signal,
        reload_cmd,
        reload_signal: None,
        watchdog_usec,
    };
    let ghost gm = m;
    assert(systemd_service(gm, unit.view_map(), gm.name@, pairs_view(file_env@)));
    let ghost prov0 = state.provides();
    let r = state.register_service_manifest(m);
    assert(gm.provides@ =~= Seq::<String>::empty());
    assert(super::forge::add_provides(prov0, gm.provides@, r->Ok_0) == prov0);
    Ok(())
}


/// The listen lines of a socket unit: `ListenStream=`, then
/// `ListenSequentialPacket=`, then each `ListenNetlink=` as `netlink:VALUE`.
pub open spec fn listen_lines(u: Map<Seq<char>, Map<Seq<char>, Seq<Seq<char>>>>) -> Seq<Seq<char>> {
    values_of(u, "Socket"@, "ListenStream"@) + values_of(u, "Socket"@, "ListenSequentialPacket"@)
        + values_of(u, "Socket"@, "ListenNetlink"@).map_values(|v: Seq<char>| "netlink:"@ + v)
}

/// Registers the socket a systemd unit file describes, under `name`.
pub fn load_systemd_socket(state: &mut ForgeState, unit: &SystemdUnit, name: String) -> (r: Result<(), String>)
    requires
        old(state).wf(),
        unit_wf(unit.sections@),
    ensures
        final(state).wf(),
        final(state).same_settings(old(state)),
        final(state).provides() == old(state).provides(),
        socket_loaded(old(state).units(), final(state).units(), unit.view_map(), name@, r),
{
    proof {
        reveal_strlit("netlink:");
    }
    let mut listen = unit.values("Socket", "ListenStream");
    let seq = unit.values("Socket", "ListenSequentialPacket");
    let nl = unit.values("Socket", "ListenNetlink");
    let ghost u = unit.view_map();
    let ghost l0 = strings_view(listen@);
    let mut i: usize = 0;
    while i < seq.len()
        invariant
            i <= seq@.len(),
            strings_view(listen@) == l0 + strings_view(seq@).take(i as int),
        decreases seq@.len() - i,
    {
        let ghost before = strings_view(listen@);
        listen.push(str_to_string(seq[i].as_str()));
        assert(strings_view(listen@) =~= before.push(seq@[i as int]@));
        assert(strings_view(seq@).take(i + 1) =~= strings_view(seq@).take(i as int).push(seq@[i as int]@));
        i = i + 1;
    }
    assert(strings_view(seq@).take(seq@.len() as int) =~= strings_view(seq@));
    let ghost l1 = strings_view(listen@);
    let mut j: usize = 0;
    while j < nl.len()
        invariant
            j <= nl@.len(),
            strings_view(listen@) == l1 + strings_view(nl@).take(j as int).map_values(|v: Seq<char>| "netlink:"@ + v),
        decreases nl@.len() - j,
    {
        let ghost before = strings_view(listen@);
        listen.push(concat("netlink:", nl[j].as_str()));
        assert(strings_view(listen@) =~= before.push("netlink:"@ + nl@[j as int]@));
        assert(strings_view(nl@).take(j + 1).map_values(|v: Seq<char>| "netlink:"@ + v) =~= strings_view(nl@).take(j as int).map_values(
            |v: Seq<char>| "netlink:"@ + v).push("netlink:"@ + nl@[j as int]@));
        j = j + 1;
    }
    assert(strings_view(nl@).take(nl@.len() as int) =~= strings_view(nl@));
    assert(strings_view(listen@) =~= listen_lines(u));
    let service = match get_first(unit, "Socket", "Service") {
        Some(v) => Some(normalize_unit_name(v.as_str())),
        None => None,
    };
    let after = unit.list("Unit", "After");
    let ghost gl = listen;
    let ghost gs = service;
    let ghost ga = after;
    let r = state.register_socket(name, listen, service, after);
    assert(inserted(old(state).units(), state.units(), name@,
        UnitKind::Socket { listen: gl, service: gs, after: ga, activation: None }, r->Ok_0 as int));
    Ok(())
}

/// Registers the target a systemd unit file describes, under `name`.
pub fn load_systemd_target(state: &mut ForgeState, unit: &SystemdUnit, name: String) -> (r: Result<(), String>)
    requires
        old(state).wf(),
        unit_wf(unit.sections@),
    ensures
        final(state).wf(),
        final(state).same_settings(old(state)),
        final(state).provides() == old(state).provides(),
        target_loaded(old(state).units(), final(state).units(), unit.view_map(), name@, r),
{
    let needs = unit.list("Unit", "Requires");
    let wants = unit.list("Unit", "Wants");
    let ghost gn = needs;
    let ghost gw = wants;
    let r = state.register_target(name, needs, wants);
    assert(inserted(old(state).units(), state.units(), name@, UnitKind::Target { requires: gn, wants: gw }, r->Ok_0 as int));
    Ok(())
}

/// Registers the timer a systemd unit file describes, under `name`: it starts the
/// unit of `Unit=`, or the service of the same name; `on_boot_usec` is its
/// `OnBootSec=` delay.
pub fn load_systemd_timer(state: &mut ForgeState, unit: &SystemdUnit, name: String, on_boot_usec: Option<u64>) -> (r: Result<(), String>)
    requires
        old(state).wf(),
        unit_wf(unit.sections@),
    ensures
        final(state).wf(),
        final(state).same_settings(old(state)),
        final(state).provides() == old(state).provides(),
        timer_loaded(old(state).units(), final(state).units(), unit.view_map(), name@, on_boot_usec, r),
{
    proof {
        reveal_strlit(".service");
    }
    let target = match get_first(unit, "Timer", "Unit") {
        Some(v) => normalize_unit_name(v.as_str()),
        None => {
            let full = concat(name.as_str(), ".service");
            normalize_unit_name(full.as_str())
        },
    };
    let after = unit.list("Unit", "After");
    let ghost gt = target;
    let ghost ga = after;
    let ghost nm = name@;
    let r = state.register_timer(TimerManifest { name, unit: target, after, on_boot_usec, on_unit_active_usec: None });
    assert(inserted(old(state).units(), state.units(), nm,
        UnitKind::Timer { unit: gt, after: ga, on_boot_usec: on_boot_usec, fired: false }, r->Ok_0 as int));
    Ok(())
}

/// Registers the mount a systemd unit file at `path` describes, under `name`;
/// `What=` and `Where=` are required, `Type=` defaults to `auto` and `Options=`
/// to `defaults`.
pub fn load_systemd_mount(state: &mut ForgeState, unit: &SystemdUnit, name: String, path: &str) -> (r: Result<(), String>)
    requires
        old(state).wf(),
        unit_wf(unit.sections@),
    ensures
        final(state).wf(),
        final(state).same_settings(old(state)),
        final(state).provides() == old(state).provides(),
        mount_loaded(old(state).units(), final(state).units(), unit.view_map(), name@, path@, r),
{
    proof {
        reveal_strlit(" missing ");
        reveal_strlit("What");
        reveal_strlit("Where");
        reveal_strlit("auto");
        reveal_strlit("defaults");
    }
    let what = match get_first(unit, "Mount", "What") {
        Some(v) => v,
        None => {
            let head = concat(path, " missing ");
            return Err(concat(head.as_str(), "What"));
        },
    };
    let where_ = match get_first(unit, "Mount", "Where") {
        Some(v) => v,
        None => {
            let head = concat(path, " missing ");
            return Err(concat(head.as_str(), "Where"));
        },
    };
    let fstype = match get_first(unit, "Mount", "Type") {
        Some(v) => v,
        None => "auto".to_string(),
    };
    let options = match get_first(unit, "Mount", "Options") {
        Some(v) => v,
        None => "defaults".to_string(),
    };
    let after = unit.list("Unit", "After");
    let ghost g = (what, where_, fstype, options, after);
    let ghost nm = name@;
    let r = state.register_mount(MountManifest { name, what, where_, fstype, options, after });
    assert(inserted(old(state).units(), state.units(), nm,
        UnitKind::Mount { what: g.0, where_: g.1, fstype: g.2, options: g.3, after: g.4, mounted: false }, r->Ok_0 as int));
    Ok(())
}

/// What loading a systemd service file does to the unit table `before`, giving
/// `after` and the result `r`, as `load_systemd_service` states it.
pub open spec fn service_loaded(
    before: Seq<Unit>,
    after: Seq<Unit>,
    u: Map<Seq<char>, Map<Seq<char>, Seq<Seq<char>>>>,
    name: Seq<char>,
    path: Seq<char>,
    file_env: Seq<(Seq<char>, Seq<char>)>,
    r: Result<(), String>,
) -> bool {
    let ok = first_value(u, "Service"@, "ExecStart"@) is Some
        && !bad_command(first_value(u, "Service"@, "ExecStart"@))
        && !bad_command(first_value(u, "Service"@, "ExecStartPre"@))
        && !bad_command(first_value(u, "Service"@, "ExecStop"@))
        && !bad_command(first_value(u, "Service"@, "ExecReload"@));
    &&& (r is Ok <==> ok)
    &&& (first_value(u, "Service"@, "ExecStart"@) is None ==> (r matches Err(e) && e@ == missing_message(path, "ExecStart"@)))
    &&& (r is Err ==> after == before)
    &&& (r is Ok ==> exists|m: ServiceManifest, k: int| systemd_service(m, u, name, file_env)
        && #[trigger] inserted(before, after, name, service_kind(m), k))
}

/// What loading a systemd socket file does, as `load_systemd_socket` states it.
pub open spec fn socket_loaded(
    before: Seq<Unit>,
    after: Seq<Unit>,
    u: Map<Seq<char>, Map<Seq<char>, Seq<Seq<char>>>>,
    name: Seq<char>,
    r: Result<(), String>,
) -> bool {
    &&& r is Ok
    &&& exists|listen: Vec<String>, service: Option<String>, deps: Vec<String>, k: int|
        strings_view(listen@) == listen_lines(u)
        && opt_view(service, match first_value(u, "Socket"@, "Service"@) {
            Some(v) => Some(normalized(v)),
            None => None,
        })
        && strings_view(deps@) == listed_names(values_of(u, "Unit"@, "After"@))
        && #[trigger] inserted(before, after, name,
            UnitKind::Socket { listen: listen, service: service, after: deps, activation: None }, k)
}

/// What loading a systemd target file does, as `load_systemd_target` states it.
pub open spec fn target_loaded(
    before: Seq<Unit>,
    after: Seq<Unit>,
    u: Map<Seq<char>, Map<Seq<char>, Seq<Seq<char>>>>,
    name: Seq<char>,
    r: Result<(), String>,
) -> bool {
    &&& r is Ok
    &&& exists|needs: Vec<String>, wants: Vec<String>, k: int|
        strings_view(needs@) == listed_names(values_of(u, "Unit"@, "Requires"@))
        && strings_view(wants@) == listed_names(values_of(u, "Unit"@, "Wants"@))
        && #[trigger] inserted(before, after, name, UnitKind::Target { requires: needs, wants: wants }, k)
}

/// What loading a systemd timer file does, as `load_systemd_timer` states it.
pub open spec fn timer_loaded(
    before: Seq<Unit>,
    after: Seq<Unit>,
    u: Map<Seq<char>, Map<Seq<char>, Seq<Seq<char>>>>,
    name: Seq<char>,
    on_boot_usec: Option<u64>,
    r: Result<(), String>,
) -> bool {
    &&& r is Ok
    &&& exists|target: String, deps: Vec<String>, k: int|
        target@ == match first_value(u, "Timer"@, "Unit"@) {
            Some(v) => normalized(v),
            None => normalized(name + ".service"@),
        }
        && strings_view(deps@) == listed_names(values_of(u, "Unit"@, "After"@))
        && #[trigger] inserted(before, after, name,
            UnitKind::Timer { unit: target, after: deps, on_boot_usec: on_boot_usec, fired: false }, k)
}

/// What loading a systemd mount file does, as `load_systemd_mount` states it.
pub open spec fn mount_loaded(
    before: Seq<Unit>,
    after: Seq<Unit>,
    u: Map<Seq<char>, Map<Seq<char>, Seq<Seq<char>>>>,
    name: Seq<char>,
    path: Seq<char>,
    r: Result<(), String>,
) -> bool {
    &&& first_value(u, "Mount"@, "What"@) is None ==> (r matches Err(e) && e@ == missing_message(path, "What"@))
    &&& first_value(u, "Mount"@, "What"@) is Some && first_value(u, "Mount"@, "Where"@) is None
        ==> (r matches Err(e) && e@ == missing_message(path, "Where"@))
    &&& r is Err ==> after == before
    &&& r is Ok <==> (first_value(u, "Mount"@, "What"@) is Some && first_value(u, "Mount"@, "Where"@) is Some)
    &&& r is Ok ==> exists|what: String, where_: String, fstype: String, options: String, deps: Vec<String>, k: int|
        what@ == first_value(u, "Mount"@, "What"@)->0
        && where_@ == first_value(u, "Mount"@, "Where"@)->0
        && fstype@ == (match first_value(u, "Mount"@, "Type"@) { Some(v) => v, None => "auto"@ })
        && options@ == (match first_value(u, "Mount"@, "Options"@) { Some(v) => v, None => "defaults"@ })
        && strings_view(deps@) == listed_names(values_of(u, "Unit"@, "After"@))
        && #[trigger] inserted(before, after, name,
            UnitKind::Mount { what: what, where_: where_, fstype: fstype, options: options, after: deps, mounted: false }, k)
}

/// Registers the unit a systemd unit file at `path` describes, by the file's
/// extension `ext`: `service`, `socket`, `target`, `timer` or `mount`; other
/// files are ignored. `file_env` holds the pairs of a service's environment
/// files, `on_boot_usec` a timer's `OnBootSec=` delay.
pub fn load_systemd_unit(
    state: &mut ForgeState,
    unit: &SystemdUnit,
    name: String,
    ext: &str,
    path: &str,
    file_env: Vec<(String, String)>,
    on_boot_usec: Option<u64>,
) -> (r: Result<(), String>)
    requires
        old(state).wf(),
        unit_wf(unit.sections@),
    ensures
        final(state).wf(),
        final(state).same_settings(old(state)),
        final(state).provides() == old(state).provides(),
        r is Err ==> final(state).units() == old(state).units(),
        ext@ != "service"@ && ext@ != "socket"@ && ext@ != "target"@ && ext@ != "timer"@ && ext@ != "mount"@
            ==> r is Ok && final(state).units() == old(state).units(),
        ext@ == "socket"@ || ext@ == "target"@ || ext@ == "timer"@ ==> r is Ok,
        ext@ == "service"@ ==> service_loaded(old(state).units(), final(state).units(), unit.view_map(), name@, path@,
            pairs_view(file_env@), r),
        ext@ == "socket"@ ==> socket_loaded(old(state).units(), final(state).units(), unit.view_map(), name@, r),
        ext@ == "target"@ ==> target_loaded(old(state).units(), final(state).units(), unit.view_map(), name@, r),
        ext@ == "timer"@ ==> timer_loaded(old(state).units(), final(state).units(), unit.view_map(), name@, on_boot_usec, r),
        ext@ == "mount"@ ==> mount_loaded(old(state).units(), final(state).units(), unit.view_map(), name@, path@, r),
{
    proof {
        reveal_strlit("service");
        reveal_strlit("socket");
        reveal_strlit("target");
        reveal_strlit("timer");
        reveal_strlit("mount");
        assert("service"@.len() != "socket"@.len());
        assert("service"@.len() != "target"@.len());
        assert("service"@.len() != "timer"@.len());
        assert("socket"@[0] != "target"@[0]);
        assert("timer"@[0] != "mount"@[0]);
        assert("socket"@ != "target"@);
        assert("timer"@ != "mount"@);
    }
    if crate::text::str_eq(ext, "service") {
        load_systemd_service(state, unit, name, path, file_env)
    } else if crate::text::str_eq(ext, "socket") {
        load_systemd_socket(state, unit, name)
    } else if crate::text::str_eq(ext, "target") {
        load_systemd_target(state, unit, name)
    } else if crate::text::str_eq(ext, "timer") {
        load_systemd_timer(state, unit, name, on_boot_usec)
    } else if crate::text::str_eq(ext, "mount") {
        load_systemd_mount(state, unit, name, path)
    } else {
        Ok(())
    }
}


/// The `environment` table of a TOML service: an environment file to read and variables.
#[derive(Debug, Clone)]
pub struct EnvironmentSpec {
    pub environment_file: Option<String>,
    pub vars: Vec<(String, String)>,
}

/// The `[service]` table of a TOML unit file.
#[derive(Debug)]
pub struct ServiceSpec {
    pub name: String,
    pub exec_path: String,
    pub args: Vec<String>,
    pub after: Vec<String>,
    pub requires: Vec<String>,
    pub wants: Vec<String>,
    pub sockets: Vec<String>,
    pub restart: RestartPolicy,
    pub cgroup: ServiceLimits,
    pub service_type: ServiceType,
    pub environment: EnvironmentSpec,
    pub exec_start_pre: Option<String>,
    pub bus_name: Option<String>,
    pub sandbox: SandboxConfig,
    pub user: Option<String>,
    pub group: Option<String>,
    pub working_directory: Option<String>,
    pub provides: Vec<String>,
    pub stop_cmd: Option<String>,
    pub stop_signal: Option<String>,
    pub reload_cmd: Option<String>,
    pub reload_signal: Option<String>,
    pub watchdog: Option<String>,
}

/// The `[socket]` table of a TOML unit file.
#[derive(Debug)]
pub struct SocketSpec {
    pub name: String,
    pub listen: Vec<String>,
    pub service: Option<String>,
    pub after: Vec<String>,
}

/// The `[target]` table of a TOML unit file.
#[derive(Debug)]
pub struct TargetSpec {
    pub name: String,
    pub requires: Vec<String>,
    pub wants: Vec<String>,
}

/// The `[device]` table of a TOML unit file.
#[derive(Debug)]
pub struct DeviceSpec {
    pub name: String,
    pub path: String,
    pub service: String,
    pub after: Vec<String>,
}

/// The `[timer]` table of a TOML unit file, its delays in microseconds.
#[derive(Debug)]
pub struct TimerSpec {
    pub name: String,
    pub unit: String,
    pub after: Vec<String>,
    pub on_boot_usec: Option<u64>,
    pub on_unit_active_usec: Option<u64>,
}

/// The `[mount]` table of a TOML unit file.
#[derive(Debug)]
pub struct MountSpec {
    pub name: String,
    pub what: String,
    pub where_: String,
    pub fstype: String,
    pub options: String,
    pub after: Vec<String>,
}

/// A TOML unit file: which of its tables are present.
#[derive(Debug)]
pub struct RawUnitFile {
    pub service: Option<ServiceSpec>,
    pub socket: Option<SocketSpec>,
    pub target: Option<TargetSpec>,
    pub device: Option<DeviceSpec>,
    pub timer: Option<TimerSpec>,
    pub mount: Option<MountSpec>,
}

/// How many of the unit tables a file holds.
pub open spec fn table_count(u: RawUnitFile) -> nat {
    (if u.service is Some { 1nat } else { 0nat }) + (if u.socket is Some { 1nat } else { 0nat })
        + (if u.target is Some { 1nat } else { 0nat }) + (if u.device is Some { 1nat } else { 0nat })
        + (if u.timer is Some { 1nat } else { 0nat }) + (if u.mount is Some { 1nat } else { 0nat })
}

/// `m` is the manifest of the TOML service `spec`, with `env_file` the pairs of its
/// environment file.
pub open spec fn toml_service(m: ServiceManifest, spec: ServiceSpec, env_file: Seq<(Seq<char>, Seq<char>)>) -> bool {
    &&& m.name == spec.name
    &&& m.exec_path == spec.exec_path
    &&& m.args == spec.args
    &&& m.after == spec.after
    &&& m.requires == spec.requires
    &&& m.wants == spec.wants
    &&& m.sockets == spec.sockets
    &&& m.restart == spec.restart
    &&& m.cgroup == spec.cgroup
    &&& m.service_type == spec.service_type
    &&& pairs_view(m.environment@) == pairs_view(spec.environment.vars@) + env_file
    &&& command_view(m.exec_start_pre, match spec.exec_start_pre { Some(l) => Some(l@), None => None })
    &&& m.bus_name == spec.bus_name
    &&& m.sandbox == spec.sandbox
    &&& m.user == spec.user
    &&& m.group == spec.group
    &&& m.working_directory == spec.working_directory
    &&& m.runlevels@.len() == 0
    &&& m.timeout_secs is None
    &&& m.pidfile is None
    &&& m.provides == spec.provides
    &&& command_view(m.stop_cmd, match spec.stop_cmd { Some(l) => Some(l@), None => None })
    &&& m.stop_signal == spec.stop_signal
    &&& command_view(m.reload_cmd, match spec.reload_cmd { Some(l) => Some(l@), None => None })
    &&& m.reload_signal == spec.reload_signal
    &&& m.watchdog_usec == match spec.watchdog { Some(w) => watchdog_of(w@), None => None }
}

/// A command line of a TOML service does not split into a program.
pub open spec fn bad_line(l: Option<String>) -> bool {
    bad_command(match l { Some(x) => Some(x@), None => None })
}

/// The manifest of a TOML service; `env_file` holds the pairs of its environment
/// file, read after its variables. Fails when `exec-start-pre`, `stop-cmd` or
/// `reload-cmd` does not split into a program.
pub fn service_from_spec(spec: ServiceSpec, env_file: Vec<(String, String)>) -> (r: Result<ServiceManifest, String>)
    ensures
        r is Err <==> (bad_line(spec.exec_start_pre) || bad_line(spec.stop_cmd) || bad_line(spec.reload_cmd)),
        r matches Ok(m) ==> toml_service(m, spec, pairs_view(env_file@)),
{
    let ghost g = spec;
    let mut environment = spec.environment.vars;
    let ghost e0 = pairs_view(environment@);
    let mut i: usize = 0;
    while i < env_file.len()
        invariant
            i <= env_file@.len(),
            pairs_view(environment@) == e0 + pairs_view(env_file@).take(i as int),
        decreases env_file@.len() - i,
    {
        let ghost before = pairs_view(environment@);
        let p = (str_to_string(env_file[i].0.as_str()), str_to_string(env_file[i].1.as_str()));
        environment.push(p);
        assert(pairs_view(environment@) =~= before.push((env_file@[i as int].0@, env_file@[i as int].1@)));
        assert(pairs_view(env_file@).take(i + 1) =~= pairs_view(env_file@).take(i as int).push(
            (env_file@[i as int].0@, env_file@[i as int].1@)));
        i = i + 1;
    }
    assert(pairs_view(env_file@).take(env_file@.len() as int) =~= pairs_view(env_file@));
    let exec_start_pre = match optional_command(spec.exec_start_pre) {
        Ok(c) => c,
        Err(e) => {
            return Err(e);
        },
    };
    let stop_cmd = match optional_command(spec.stop_cmd) {
        Ok(c) => c,
        Err(e) => {
            return Err(e);
        },
    };
    let reload_cmd = match optional_command(spec.reload_cmd) {
        Ok(c) => c,
        Err(e) => {
            return Err(e);
        },
    };
    let watchdog_usec = match &spec.watchdog {
        Some(w) => parse_watchdog(Some(w.as_str())),
        None => None,
    };
    Ok(ServiceManifest {
        name: spec.name,
        exec_path: spec.exec_path,
        args: spec.args,
        after: spec.after,
        requires: spec.requires,
        wants: spec.wants,
        sockets: spec.sockets,
        restart: spec.restart,
        cgroup: spec.cgroup,
        service_type: spec.service_type,
        environment,
        exec_start_pre,
        bus_name: spec.bus_name,
        sandbox: spec.sandbox,
        user: spec.user,
        group: spec.group,
        working_directory: spec.working_directory,
        runlevels: Vec::new(),
        timeout_secs: None,
        pidfile: None,
        provides: spec.provides,
        stop_cmd,
        stop_signal: spec.stop_signal,
        reload_cmd,
        reload_signal: spec.reload_signal,
        watchdog_usec,
    })
}

/// A drop-in of a TOML service, as read from its `<stem>.d` directory.
#[derive(Debug)]
pub enum Dropin {
    /// A `.conf` file, parsed as a systemd unit.
    Conf(SystemdUnit),
    /// A `.toml` file, its `[service]` table.
    Toml(TomlDropin),
}

/// Every `.conf` drop-in is a well-formed unit.
pub open spec fn dropins_wf(ds: Seq<Dropin>) -> bool {
    forall|i: int| 0 <= i < ds.len() ==> (#[trigger] ds[i] matches Dropin::Conf(u) ==> unit_wf(u.sections@))
}

/// The ordering names after the drop-ins `ds` are applied in order.
pub open spec fn dropped_after(a: Seq<Seq<char>>, ds: Seq<Dropin>) -> Seq<Seq<char>>
    decreases ds.len(),
{
    if ds.len() == 0 {
        a
    } else {
        dropped_after(a, ds.drop_last()) + match ds.last() {
            Dropin::Conf(u) => {
                let v = values_of(u.view_map(), "Unit"@, "After"@);
                if v.len() > 0 { words(v[0]) } else { Seq::empty() }
            },
            Dropin::Toml(t) => string_items(t.after@),
        }
    }
}

/// The environment after the drop-ins `ds` are applied in order.
pub open spec fn dropped_env(e: Seq<(Seq<char>, Seq<char>)>, ds: Seq<Dropin>) -> Seq<(Seq<char>, Seq<char>)>
    decreases ds.len(),
{
    if ds.len() == 0 {
        e
    } else {
        dropped_env(e, ds.drop_last()) + match ds.last() {
            Dropin::Conf(u) => raw_env_pairs(values_of(u.view_map(), "Service"@, "Environment"@)),
            Dropin::Toml(t) => string_entries(t.environment@),
        }
    }
}

/// Applies the drop-ins of a service in order.
pub fn apply_dropins(manifest: &mut ServiceManifest, dropins: &Vec<Dropin>)
    requires
        dropins_wf(dropins@),
    ensures
        strings_view(final(manifest).after@) == dropped_after(strings_view(old(manifest).after@), dropins@),
        pairs_view(final(manifest).environment@) == dropped_env(pairs_view(old(manifest).environment@), dropins@),
        *final(manifest) == (ServiceManifest { after: final(manifest).after, environment: final(manifest).environment, ..*old(manifest) }),
{
    let ghost a0 = strings_view(manifest.after@);
    let ghost e0 = pairs_view(manifest.environment@);
    let mut i: usize = 0;
    assert(dropins@.take(0) =~= Seq::<Dropin>::empty());
    while i < dropins.len()
        invariant
            i <= dropins@.len(),
            dropins_wf(dropins@),
            a0 == strings_view(old(manifest).after@),
            e0 == pairs_view(old(manifest).environment@),
            strings_view(manifest.after@) == dropped_after(a0, dropins@.take(i as int)),
            pairs_view(manifest.environment@) == dropped_env(e0, dropins@.take(i as int)),
            *manifest == (ServiceManifest { after: manifest.after, environment: manifest.environment, ..*old(manifest) }),
        decreases dropins@.len() - i,
    {
        assert(dropins@.take(i + 1).drop_last() =~= dropins@.take(i as int));
        assert(dropins@.take(i + 1).last() == dropins@[i as int]);
        match &dropins[i] {
            Dropin::Conf(u) => {
                assert(unit_wf(u.sections@));
                apply_conf_dropin(manifest, u);
            },
            Dropin::Toml(t) => {
                merge_toml_dropin(manifest, t);
            },
        }
        i = i + 1;
    }
    assert(dropins@.take(dropins@.len() as int) =~= dropins@);
}


/// `m` is `m0` with the drop-ins `ds` applied.
pub open spec fn with_dropins(m0: ServiceManifest, m: ServiceManifest, ds: Seq<Dropin>) -> bool {
    &&& m == (ServiceManifest { after: m.after, environment: m.environment, ..m0 })
    &&& strings_view(m.after@) == dropped_after(strings_view(m0.after@), ds)
    &&& pairs_view(m.environment@) == dropped_env(pairs_view(m0.environment@), ds)
}

/// The error of a TOML unit file without exactly one unit table.
pub open spec fn table_message(path: Seq<char>) -> Seq<char> {
    "Unit "@ + path + " must contain exactly one of [service], [socket], [target], [device], [timer], or [mount]"@
}

/// Registers the unit a TOML unit file at `path` describes. It must hold exactly
/// one unit table. A service reads `env_file` (the pairs of its environment file)
/// and has the drop-ins `dropins` applied; a mount's empty type and options mean
/// `auto` and `defaults`.
pub fn load_toml_unit(
    state: &mut ForgeState,
    unit: RawUnitFile,
    path: &str,
    env_file: Vec<(String, String)>,
    dropins: &Vec<Dropin>,
) -> (r: Result<(), String>)
    requires
        old(state).wf(),
        dropins_wf(dropins@),
    ensures
        final(state).wf(),
        final(state).same_settings(old(state)),
        r is Err ==> final(state).units() == old(state).units() && final(state).provides() == old(state).provides(),
        table_count(unit) != 1 ==> (r matches Err(e) && e@ == table_message(path@)),
        table_count(unit) == 1 ==> match unit.service {
            Some(spec) => {
                &&& r is Err <==> (bad_line(spec.exec_start_pre) || bad_line(spec.stop_cmd) || bad_line(spec.reload_cmd))
                &&& r is Ok ==> exists|m0: ServiceManifest, m: ServiceManifest, k: int|
                    #[trigger] toml_service(m0, spec, pairs_view(env_file@)) && with_dropins(m0, m, dropins@)
                    && #[trigger] inserted(old(state).units(), final(state).units(), m.name@, service_kind(m), k)
                    && final(state).provides() == super::forge::add_provides(old(state).provides(), m.provides@, k as usize)
            },
            None => r is Ok && final(state).provides() == old(state).provides() && match unit.socket {
                Some(s) => exists|k: int| #[trigger] inserted(old(state).units(), final(state).units(), s.name@,
                    UnitKind::Socket { listen: s.listen, service: s.service, after: s.after, activation: None }, k),
                None => match unit.target {
                    Some(t) => exists|k: int| #[trigger] inserted(old(state).units(), final(state).units(), t.name@,
                        UnitKind::Target { requires: t.requires, wants: t.wants }, k),
                    None => match unit.device {
                        Some(d) => exists|k: int| #[trigger] inserted(old(state).units(), final(state).units(), d.name@,
                            UnitKind::Device { path: d.path, service: d.service, after: d.after, activated: false }, k),
                        None => match unit.timer {
                            Some(t) => exists|k: int| #[trigger] inserted(old(state).units(), final(state).units(), t.name@,
                                UnitKind::Timer { unit: t.unit, after: t.after, on_boot_usec: t.on_boot_usec, fired: false }, k),
                            None => unit.mount matches Some(m) && exists|fstype: String, options: String, k: int|
                                fstype@ == (if m.fstype@.len() == 0 { "auto"@ } else { m.fstype@ })
                                && options@ == (if m.options@.len() == 0 { "defaults"@ } else { m.options@ })
                                && #[trigger] inserted(old(state).units(), final(state).units(), m.name@,
                                UnitKind::Mount { what: m.what, where_: m.where_, fstype: fstype, options: options, after: m.after, mounted: false }, k),
                        },
                    },
                },
            },
        },
{
    proof {
        reveal_strlit("Unit ");
        reveal_strlit(" must contain exactly one of [service], [socket], [target], [device], [timer], or [mount]");
    }
    let mut count: usize = 0;
    if unit.service.is_some() {
        count = count + 1;
    }
    if unit.socket.is_some() {
        count = count + 1;
    }
    if unit.target.is_some() {
        count = count + 1;
    }
    if unit.device.is_some() {
        count = count + 1;
    }
    if unit.timer.is_some() {
        count = count + 1;
    }
    if unit.mount.is_some() {
        count = count + 1;
    }
    if count != 1 {
        let head = concat("Unit ", path);
        return Err(concat(
            head.as_str(),
            " must contain exactly one of [service], [socket], [target], [device], [timer], or [mount]",
        ));
    }
    match unit.service {
        Some(spec) => {
            let ghost gs = spec;
            let mut m = match service_from_spec(spec, env_file) {
                Ok(m) => m,
                Err(e) => {
                    return Err(e);
                },
            };
            let ghost m0 = m;
            apply_dropins(&mut m, dropins);
            assert(with_dropins(m0, m, dropins@));
            let ghost gm = m;
            let r = state.register_service_manifest(m);
            assert(inserted(old(state).units(), state.units(), gm.name@, service_kind(gm), r->Ok_0 as int));
            return Ok(());
        },
        None => {},
    }
    match unit.socket {
        Some(s) => {
            let ghost g = s;
            let r = state.register_socket(s.name, s.listen, s.service, s.after);
            assert(inserted(old(state).units(), state.units(), g.name@,
                UnitKind::Socket { listen: g.listen, service: g.service, after: g.after, activation: None }, r->Ok_0 as int));
            return Ok(());
        },
        None => {},
    }
    match unit.target {
        Some(t) => {
            let ghost g = t;
            let r = state.register_target(t.name, t.requires, t.wants);
            assert(inserted(old(state).units(), state.units(), g.name@,
                UnitKind::Target { requires: g.requires, wants: g.wants }, r->Ok_0 as int));
            return Ok(());
        },
        None => {},
    }
    match unit.device {
        Some(d) => {
            let ghost g = d;
            let r = state.register_device(DeviceManifest { name: d.name, path: d.path, service: d.service, after: d.after });
            assert(inserted(old(state).units(), state.units(), g.name@,
                UnitKind::Device { path: g.path, service: g.service, after: g.after, activated: false }, r->Ok_0 as int));
            return Ok(());
        },
        None => {},
    }
    match unit.timer {
        Some(t) => {
            let ghost g = t;
            let r = state.register_timer(TimerManifest {
                name: t.name,
                unit: t.unit,
                after: t.after,
                on_boot_usec: t.on_boot_usec,
                on_unit_active_usec: t.on_unit_active_usec,
            });
            assert(inserted(old(state).units(), state.units(), g.name@,
                UnitKind::Timer { unit: g.unit, after: g.after, on_boot_usec: g.on_boot_usec, fired: false }, r->Ok_0 as int));
            return Ok(());
        },
        None => {},
    }
    match unit.mount {
        Some(m) => {
            proof {
                reveal_strlit("auto");
                reveal_strlit("defaults");
            }
            let ghost g = m;
            let fstype = if m.fstype.as_str().is_empty() { "auto".to_string() } else { m.fstype };
            let options = if m.options.as_str().is_empty() { "defaults".to_string() } else { m.options };
            let ghost gf = fstype;
            let ghost go = options;
            let r = state.register_mount(MountManifest {
                name: m.name,
                what: m.what,
                where_: m.where_,
                fstype,
                options,
                after: m.after,
            });
            assert(inserted(old(state).units(), state.units(), g.name@,
                UnitKind::Mount { what: g.what, where_: g.where_, fstype: gf, options: go, after: g.after, mounted: false }, r->Ok_0 as int));
            Ok(())
        },
        None => Ok(()),
    }
}

} // verus!
