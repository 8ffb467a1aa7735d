//! How the init process launches the services it knows itself (the system bus,
//! udevd, logind, polkit, ...), in place of shell wrappers.
use vstd::prelude::*;
use crate::dbus_wait::{first_true, is_file, opt_text, resolve_tool, texts, tool_choice};
use crate::text::{chars_of, contains_seq, contains_str, has_prefix, lower_seq, parse_unsigned, starts_with,
    str_eq, str_eq_ignore_case, str_to_string, strings_view, concat};
use crate::service::forge::copy_strings;

verus! {

/// The helper that runs a service in its SELinux domain.
pub const EXEC_HELPER: &'static str = "/usr/libexec/forge/exec-selinux-service.sh";
/// `setpriv`, which runs a program as another user.
pub const SETPRIV: &'static str = "/usr/bin/setpriv";
/// The classic system bus daemon.
pub const DBUS_DAEMON: &'static str = "/usr/bin/dbus-daemon";
/// The launcher of `dbus-broker`.
pub const DBUS_BROKER_LAUNCH: &'static str = "/usr/bin/dbus-broker-launch";

/// The text of an optional string.
pub open spec fn text_of(o: Option<&str>) -> Option<Seq<char>> {
    match o {
        Some(v) => Some(v@),
        None => None,
    }
}

/// A program and its arguments.
#[derive(Debug)]
pub struct CommandLine {
    pub program: String,
    pub args: Vec<String>,
}

/// The view of a command line.
pub open spec fn line_view(c: CommandLine) -> (Seq<char>, Seq<Seq<char>>) {
    (c.program@, strings_view(c.args@))
}

/// How a program runs in its SELinux domain: through the exec helper when it is
/// installed (as `user` when one is given); else, for a user, through `setpriv` when
/// that is installed; else directly.
pub open spec fn selinux_wrapped(
    user: Option<Seq<char>>,
    binary: Seq<char>,
    args: Seq<Seq<char>>,
    helper: bool,
    setpriv: bool,
) -> (Seq<char>, Seq<Seq<char>>) {
    if helper {
        match user {
            Some(u) => (EXEC_HELPER@, seq!["--user="@ + u, binary] + args),
            None => (EXEC_HELPER@, seq![binary] + args),
        }
    } else if user is Some && setpriv {
        let u = user->0;
        (SETPRIV@, seq!["--reuid"@, u, "--regid"@, u, "--init-groups"@, "--"@, binary] + args)
    } else {
        (binary, args)
    }
}

fn push_all(v: &mut Vec<String>, extra: &Vec<String>)
    ensures
        strings_view(final(v)@) == strings_view(old(v)@) + strings_view(extra@),
{
    let mut i: usize = 0;
    let ghost start = v@;
    while i < extra.len()
        invariant
            i <= extra@.len(),
            strings_view(v@) == strings_view(start) + strings_view(extra@.take(i as int)),
        decreases extra@.len() - i,
    {
        let ghost before = v@;
        let x = extra[i].clone();
        v.push(x);
        assert(strings_view(v@) =~= strings_view(before).push(x@));
        assert(extra@.take(i + 1) =~= extra@.take(i as int).push(extra@[i as int]));
        assert(strings_view(extra@.take(i + 1)) =~= strings_view(extra@.take(i as int)).push(x@));
        i = i + 1;
        assert(strings_view(v@) =~= strings_view(start) + strings_view(extra@.take(i as int)));
    }
    assert(extra@.take(extra@.len() as int) =~= extra@);
}

/// The command that runs `binary` with `args` in its SELinux domain, given whether the
/// exec helper and `setpriv` are installed.
pub fn wrap_selinux_with(user: Option<&str>, binary: &str, args: &Vec<String>, helper: bool, setpriv: bool) -> (r: CommandLine)
    ensures
        line_view(r) == selinux_wrapped(
            text_of(user),
            binary@,
            strings_view(args@),
            helper,
            setpriv,
        ),
{
    let mut a: Vec<String> = Vec::new();
    if helper {
        match user {
            Some(u) => {
                a.push(concat("--user=", u));
            },
            None => {},
        }
        a.push(str_to_string(binary));
        push_all(&mut a, args);
        let r = CommandLine { program: str_to_string(EXEC_HELPER), args: a };
        proof {
            match user {
                Some(u) => assert(strings_view(r.args@) =~= seq!["--user="@ + u@, binary@] + strings_view(args@)),
                None => assert(strings_view(r.args@) =~= seq![binary@] + strings_view(args@)),
            }
        }
        return r;
    }
    match user {
        Some(u) => {
            if setpriv {
                a.push(str_to_string("--reuid"));
                a.push(str_to_string(u));
                a.push(str_to_string("--regid"));
                a.push(str_to_string(u));
                a.push(str_to_string("--init-groups"));
                a.push(str_to_string("--"));
                a.push(str_to_string(binary));
                push_all(&mut a, args);
                let r = CommandLine { program: str_to_string(SETPRIV), args: a };
                assert(strings_view(r.args@) =~= seq!["--reuid"@, u@, "--regid"@, u@, "--init-groups"@, "--"@, binary@]
                    + strings_view(args@));
                return r;
            }
        },
        None => {},
    }
    push_all(&mut a, args);
    assert(strings_view(a@) =~= strings_view(args@));
    CommandLine { program: str_to_string(binary), args: a }
}

/// The command that runs `binary` in its SELinux domain, as `wrap_selinux_with` builds
/// it from whether the exec helper and `setpriv` are installed; which they are is
/// asked of the disk.
pub fn wrap_selinux(user: Option<&str>, binary: &str, args: &Vec<String>) -> (r: CommandLine)
    ensures
        exists|helper: bool, setpriv: bool| line_view(r) == #[trigger] selinux_wrapped(
            text_of(user),
            binary@,
            strings_view(args@),
            helper,
            setpriv,
        ),
{
    let helper = is_file(EXEC_HELPER);
    let setpriv = is_file(SETPRIV);
    wrap_selinux_with(user, binary, args, helper, setpriv)
}

/// A service the init process launches itself.
#[derive(Debug, Clone, Copy, PartialEq, Eq, Structural)]
pub enum Launcher {
    SystemBus,
    Udevd,
    Logind,
    Polkit,
    AccountsDaemon,
    NetworkManager,
    Agetty,
}

/// The launcher for the unit `name` whose program is `exec`, when its shell wrapper is
/// one the init process replaces.
pub open spec fn launcher_for(name: Seq<char>, exec: Seq<char>) -> Option<Launcher> {
    if name == "forge-early"@ {
        None
    } else if name == "dbus"@ && (contains_seq(exec, "start-dbus"@) || contains_seq(exec, "dbus-daemon"@)) {
        Some(Launcher::SystemBus)
    } else if name == "udev"@ && contains_seq(exec, "start-udevd"@) {
        Some(Launcher::Udevd)
    } else if name == "logind"@ && (contains_seq(exec, "start-logind"@) || contains_seq(exec, "elogind"@)
        || contains_seq(exec, "systemd-logind"@)) {
        Some(Launcher::Logind)
    } else if name == "polkit"@ && contains_seq(exec, "start-polkit"@) {
        Some(Launcher::Polkit)
    } else if name == "accounts-daemon"@ && contains_seq(exec, "start-accounts-daemon"@) {
        Some(Launcher::AccountsDaemon)
    } else if name == "NetworkManager"@ && contains_seq(exec, "start-networkmanager"@) {
        Some(Launcher::NetworkManager)
    } else if starts_with(name, "getty"@) && contains_seq(exec, "start-agetty"@) {
        Some(Launcher::Agetty)
    } else {
        None
    }
}

/// Which launcher, if any, replaces the unit `name` whose program is `exec`.
pub fn resolve_service_command(name: &str, exec: &str) -> (r: Option<Launcher>)
    ensures
        r == launcher_for(name@, exec@),
{
    let e = chars_of(exec);
    let n = chars_of(name);
    let getty = chars_of("getty");
    if str_eq(name, "forge-early") {
        None
    } else if str_eq(name, "dbus") && (contains_str(e.as_slice(), "start-dbus") || contains_str(e.as_slice(), "dbus-daemon")) {
        Some(Launcher::SystemBus)
    } else if str_eq(name, "udev") && contains_str(e.as_slice(), "start-udevd") {
        Some(Launcher::Udevd)
    } else if str_eq(name, "logind") && (contains_str(e.as_slice(), "start-logind") || contains_str(e.as_slice(), "elogind")
        || contains_str(e.as_slice(), "systemd-logind")) {
        Some(Launcher::Logind)
    } else if str_eq(name, "polkit") && contains_str(e.as_slice(), "start-polkit") {
        Some(Launcher::Polkit)
    } else if str_eq(name, "accounts-daemon") && contains_str(e.as_slice(), "start-accounts-daemon") {
        Some(Launcher::AccountsDaemon)
    } else if str_eq(name, "NetworkManager") && contains_str(e.as_slice(), "start-networkmanager") {
        Some(Launcher::NetworkManager)
    } else if has_prefix(n.as_slice(), getty.as_slice()) && contains_str(e.as_slice(), "start-agetty") {
        Some(Launcher::Agetty)
    } else {
        None
    }
}

/// Where a launcher looks for its program, in order.
pub open spec fn launcher_paths(l: Launcher) -> Seq<Seq<char>> {
    match l {
        Launcher::SystemBus => seq![DBUS_DAEMON@, DBUS_BROKER_LAUNCH@],
        Launcher::Udevd => seq!["/usr/lib/systemd/systemd-udevd"@, "/sbin/udevd"@],
        Launcher::Logind => seq![
            "/usr/libexec/elogind/elogind"@,
            "/usr/lib/elogind/elogind"@,
            "/usr/lib64/elogind/elogind"@,
            "/usr/sbin/elogind"@,
            "/usr/bin/elogind"@,
            "/usr/lib/systemd/systemd-logind"@,
            "/lib/systemd/systemd-logind"@,
            "/usr/lib64/systemd/systemd-logind"@,
        ],
        Launcher::Polkit => seq!["/usr/lib/polkit-1/polkitd"@, "/usr/libexec/polkitd"@],
        Launcher::AccountsDaemon => seq!["/usr/libexec/accounts-daemon"@, "/usr/lib/accounts-daemon"@],
        Launcher::NetworkManager => seq!["/usr/sbin/NetworkManager"@, "/usr/bin/NetworkManager"@],
        Launcher::Agetty => seq!["/usr/sbin/agetty"@, "/sbin/agetty"@],
    }
}

/// The places a launcher looks for its program, in order.
pub fn launcher_candidates(l: Launcher) -> (r: Vec<&'static str>)
    ensures
        r@.map_values(|s: &'static str| s@) == launcher_paths(l),
{
    let r: Vec<&'static str> = match l {
        Launcher::SystemBus => vec![DBUS_DAEMON, DBUS_BROKER_LAUNCH],
        Launcher::Udevd => vec!["/usr/lib/systemd/systemd-udevd", "/sbin/udevd"],
        Launcher::Logind => vec![
            "/usr/libexec/elogind/elogind",
            "/usr/lib/elogind/elogind",
            "/usr/lib64/elogind/elogind",
            "/usr/sbin/elogind",
            "/usr/bin/elogind",
            "/usr/lib/systemd/systemd-logind",
            "/lib/systemd/systemd-logind",
            "/usr/lib64/systemd/systemd-logind",
        ],
        Launcher::Polkit => vec!["/usr/lib/polkit-1/polkitd", "/usr/libexec/polkitd"],
        Launcher::AccountsDaemon => vec!["/usr/libexec/accounts-daemon", "/usr/lib/accounts-daemon"],
        Launcher::NetworkManager => vec!["/usr/sbin/NetworkManager", "/usr/bin/NetworkManager"],
        Launcher::Agetty => vec!["/usr/sbin/agetty", "/sbin/agetty"],
    };
    assert(r@.map_values(|s: &'static str| s@) =~= launcher_paths(l));
    r
}

/// What a launcher reports when none of its places holds its program.
pub open spec fn launcher_missing(l: Launcher) -> Seq<char> {
    match l {
        Launcher::SystemBus => "neither dbus-daemon nor dbus-broker-launch found"@,
        Launcher::Udevd => "systemd-udevd not found"@,
        Launcher::Logind => "elogind or systemd-logind not found"@,
        Launcher::Polkit => "polkitd not found"@,
        Launcher::AccountsDaemon => "accounts-daemon not found"@,
        Launcher::NetworkManager => "NetworkManager not found"@,
        Launcher::Agetty => "agetty not found"@,
    }
}

/// The command a launcher (other than the system bus's) runs once it found its
/// program `bin`: udevd and agetty run it directly; polkit runs it as `polkitd` in
/// its SELinux domain, quiet unless something fails; the others run it in their domain.
pub open spec fn launcher_line(l: Launcher, bin: Seq<char>, args: Seq<Seq<char>>, helper: bool, setpriv: bool) -> (Seq<char>, Seq<Seq<char>>) {
    match l {
        Launcher::Udevd | Launcher::Agetty => (bin, args),
        Launcher::Polkit => selinux_wrapped(Some("polkitd"@), bin, seq!["--no-debug"@, "--log-level=err"@] + args, helper, setpriv),
        _ => selinux_wrapped(None, bin, args, helper, setpriv),
    }
}

/// The command of launcher `l` for the program found at `bin`, as `launcher_line` says.
pub fn launcher_command_with(l: Launcher, bin: &str, args: &Vec<String>, helper: bool, setpriv: bool) -> (r: CommandLine)
    ensures
        line_view(r) == launcher_line(l, bin@, strings_view(args@), helper, setpriv),
{
    match l {
        Launcher::Udevd | Launcher::Agetty => CommandLine { program: str_to_string(bin), args: copy_strings(args) },
        Launcher::Polkit => {
            let mut a: Vec<String> = Vec::new();
            a.push(str_to_string("--no-debug"));
            a.push(str_to_string("--log-level=err"));
            push_all(&mut a, args);
            assert(strings_view(a@) =~= seq!["--no-debug"@, "--log-level=err"@] + strings_view(args@));
            wrap_selinux_with(Some("polkitd"), bin, &a, helper, setpriv)
        },
        _ => wrap_selinux_with(None, bin, args, helper, setpriv),
    }
}

/// The number of sockets the environment hands over (`LISTEN_FDS`), 0 when unset or
/// not a number.
pub open spec fn listen_fd_count(value: Option<Seq<char>>) -> nat {
    match value {
        Some(v) => match parse_unsigned(v, u32::MAX as nat) {
            Some(n) => n,
            None => 0,
        },
        None => 0,
    }
}

/// `FORGE_DBUS_USE_BROKER` asks for `dbus-broker`: it is `1`, `yes`, or `true` in any case.
pub open spec fn broker_forced(value: Option<Seq<char>>) -> bool {
    match value {
        Some(v) => v == "1"@ || v == "yes"@ || lower_seq(v) == lower_seq("true"@),
        None => false,
    }
}

/// The configuration file of the system bus: the shipped one when it exists, else `/etc`'s.
pub open spec fn bus_config(shipped: bool) -> Seq<char> {
    if shipped { "/usr/share/dbus-1/system.conf"@ } else { "/etc/dbus-1/system.conf"@ }
}

/// The program that runs the system bus and its arguments, from the sockets handed
/// over, whether `dbus-broker` is asked for, which of `dbus-broker-launch` and
/// `dbus-daemon` are installed, and whether the shipped bus configuration exists.
pub open spec fn bus_launcher(listen: nat, force: bool, broker: bool, daemon: bool, shipped: bool) -> Result<(Seq<char>, Seq<Seq<char>>), Seq<char>> {
    let broker_line = (DBUS_BROKER_LAUNCH@, seq!["--scope"@, "system"@, "--audit"@]);
    let conf = "--config-file="@ + bus_config(shipped);
    if (listen > 0 || force) && broker {
        Ok(broker_line)
    } else if listen > 0 && daemon {
        Ok((DBUS_DAEMON@, seq![conf, "--nofork"@, "--nopidfile"@, "--systemd-activation"@, "--address=systemd:"@]))
    } else if daemon {
        Ok((DBUS_DAEMON@, seq![conf, "--nofork"@, "--nopidfile"@]))
    } else if broker {
        Ok(broker_line)
    } else {
        Err(launcher_missing(Launcher::SystemBus))
    }
}

fn listen_count(value: Option<&str>) -> (r: u32)
    ensures
        r as nat == listen_fd_count(
            text_of(value),
        ),
{
    match value {
        Some(v) => {
            let c = chars_of(v);
            assert(c@.subrange(0, c@.len() as int) =~= c@);
            match crate::text::parse_u32_range(c.as_slice(), 0, c.len()) {
                Some(n) => n,
                None => 0,
            }
        },
        None => 0,
    }
}

fn broker_asked(value: Option<&str>) -> (r: bool)
    ensures
        r == broker_forced(
            text_of(value),
        ),
{
    match value {
        Some(v) => str_eq(v, "1") || str_eq(v, "yes") || str_eq_ignore_case(v, "true"),
        None => false,
    }
}

fn strings(parts: Vec<&str>) -> (r: Vec<String>)
    ensures
        strings_view(r@) == parts@.map_values(|s: &str| s@),
{
    let mut r: Vec<String> = Vec::new();
    let mut i: usize = 0;
    while i < parts.len()
        invariant
            i <= parts@.len(),
            strings_view(r@) == parts@.take(i as int).map_values(|s: &str| s@),
        decreases parts@.len() - i,
    {
        let ghost before = r@;
        let x = str_to_string(parts[i]);
        r.push(x);
        assert(strings_view(r@) =~= strings_view(before).push(x@));
        assert(parts@.take(i + 1) =~= parts@.take(i as int).push(parts@[i as int]));
        i = i + 1;
        assert(strings_view(r@) =~= parts@.take(i as int).map_values(|s: &str| s@));
    }
    assert(parts@.take(parts@.len() as int) =~= parts@);
    r
}

/// How the system bus is run, as `bus_launcher` decides from the values of
/// `LISTEN_FDS` and `FORGE_DBUS_USE_BROKER` and from what is installed.
pub fn pick_bus_launcher(listen_fds: Option<&str>, use_broker: Option<&str>, broker: bool, daemon: bool, shipped: bool) -> (r: Result<CommandLine, String>)
    ensures
        match bus_launcher(
            listen_fd_count(text_of(listen_fds)),
            broker_forced(text_of(use_broker)),
            broker,
            daemon,
            shipped,
        ) {
            Ok(l) => r matches Ok(c) && line_view(c) == l,
            Err(m) => r matches Err(e) && e@ == m,
        },
{
    let listen = listen_count(listen_fds);
    let force = broker_asked(use_broker);
    let conf = if shipped {
        concat("--config-file=", "/usr/share/dbus-1/system.conf")
    } else {
        concat("--config-file=", "/etc/dbus-1/system.conf")
    };
    if (listen > 0 || force) && broker {
        let a = strings(vec!["--scope", "system", "--audit"]);
        assert(strings_view(a@) =~= seq!["--scope"@, "system"@, "--audit"@]);
        return Ok(CommandLine { program: str_to_string(DBUS_BROKER_LAUNCH), args: a });
    }
    if listen > 0 && daemon {
        let mut a: Vec<String> = Vec::new();
        a.push(conf);
        a.push(str_to_string("--nofork"));
        a.push(str_to_string("--nopidfile"));
        a.push(str_to_string("--systemd-activation"));
        a.push(str_to_string("--address=systemd:"));
        assert(strings_view(a@) =~= seq!["--config-file="@ + bus_config(shipped), "--nofork"@, "--nopidfile"@,
            "--systemd-activation"@, "--address=systemd:"@]);
        return Ok(CommandLine { program: str_to_string(DBUS_DAEMON), args: a });
    }
    if daemon {
        let mut a: Vec<String> = Vec::new();
        a.push(conf);
        a.push(str_to_string("--nofork"));
        a.push(str_to_string("--nopidfile"));
        assert(strings_view(a@) =~= seq!["--config-file="@ + bus_config(shipped), "--nofork"@, "--nopidfile"@]);
        return Ok(CommandLine { program: str_to_string(DBUS_DAEMON), args: a });
    }
    if broker {
        let a = strings(vec!["--scope", "system", "--audit"]);
        assert(strings_view(a@) =~= seq!["--scope"@, "system"@, "--audit"@]);
        return Ok(CommandLine { program: str_to_string(DBUS_BROKER_LAUNCH), args: a });
    }
    Err(str_to_string("neither dbus-daemon nor dbus-broker-launch found"))
}

/// How the system bus launcher runs as the `dbus` user: through the exec helper when it
/// is installed, else through `setpriv` when that is, else directly.
pub open spec fn bus_command(launcher: (Seq<char>, Seq<Seq<char>>), helper: bool, setpriv: bool) -> (Seq<char>, Seq<Seq<char>>) {
    if helper {
        (EXEC_HELPER@, seq!["--user=dbus"@, launcher.0] + launcher.1)
    } else if setpriv {
        (SETPRIV@, seq!["--reuid=dbus"@, "--regid=dbus"@, "--init-groups"@, "--"@, launcher.0] + launcher.1)
    } else {
        launcher
    }
}

/// The system bus command for `launcher`, as `bus_command` says.
pub fn system_dbus_command_with(launcher: CommandLine, helper: bool, setpriv: bool) -> (r: CommandLine)
    ensures
        line_view(r) == bus_command(line_view(launcher), helper, setpriv),
{
    if helper {
        let mut a: Vec<String> = Vec::new();
        a.push(str_to_string("--user=dbus"));
        a.push(launcher.program.clone());
        push_all(&mut a, &launcher.args);
        assert(strings_view(a@) =~= seq!["--user=dbus"@, launcher.program@] + strings_view(launcher.args@));
        return CommandLine { program: str_to_string(EXEC_HELPER), args: a };
    }
    if setpriv {
        let mut a: Vec<String> = Vec::new();
        a.push(str_to_string("--reuid=dbus"));
        a.push(str_to_string("--regid=dbus"));
        a.push(str_to_string("--init-groups"));
        a.push(str_to_string("--"));
        a.push(launcher.program.clone());
        push_all(&mut a, &launcher.args);
        assert(strings_view(a@) =~= seq!["--reuid=dbus"@, "--regid=dbus"@, "--init-groups"@, "--"@, launcher.program@]
            + strings_view(launcher.args@));
        return CommandLine { program: str_to_string(SETPRIV), args: a };
    }
    launcher
}

/// `r` is what a bus launcher decision `l` leads to: its command, run as the `dbus`
/// user as `bus_command` says for some answer of the disk, or its error.
pub open spec fn bus_outcome(r: Result<CommandLine, String>, l: Result<(Seq<char>, Seq<Seq<char>>), Seq<char>>) -> bool {
    match l {
        Ok(x) => r matches Ok(c) && exists|helper: bool, setpriv: bool| line_view(c) == #[trigger] bus_command(x, helper, setpriv),
        Err(m) => r matches Err(e) && e@ == m,
    }
}

/// The system bus command: the launcher picked from the environment values given and
/// from what is installed, run as the `dbus` user. What is installed is asked of the disk.
pub fn system_dbus_command(listen_fds: Option<&str>, use_broker: Option<&str>) -> (r: Result<CommandLine, String>)
    ensures
        exists|broker: bool, daemon: bool, shipped: bool| #[trigger] bus_outcome(r, bus_launcher(
            listen_fd_count(text_of(listen_fds)),
            broker_forced(text_of(use_broker)),
            broker,
            daemon,
            shipped,
        )),
{
    let broker = is_file(DBUS_BROKER_LAUNCH);
    let daemon = is_file(DBUS_DAEMON);
    let shipped = is_file("/usr/share/dbus-1/system.conf");
    let helper = is_file(EXEC_HELPER);
    let setpriv = is_file(SETPRIV);
    let ghost decision = bus_launcher(listen_fd_count(text_of(listen_fds)), broker_forced(text_of(use_broker)), broker, daemon, shipped);
    let r = match pick_bus_launcher(listen_fds, use_broker, broker, daemon, shipped) {
        Ok(l) => {
            let ghost lv = line_view(l);
            let c = system_dbus_command_with(l, helper, setpriv);
            assert(line_view(c) == bus_command(lv, helper, setpriv));
            Ok(c)
        },
        Err(e) => Err(e),
    };
    assert(bus_outcome(r, decision));
    r
}

/// `r` is the command of launcher `l` with `args` when the disk answered `present` of
/// its places (one answer per place) and `helper`/`setpriv` of the wrapper tools: the
/// first place that holds the program, or the error naming the program when none does.
pub open spec fn launcher_outcome(
    l: Launcher,
    args: Seq<Seq<char>>,
    present: Seq<bool>,
    helper: bool,
    setpriv: bool,
    r: Result<CommandLine, String>,
) -> bool {
    &&& present.len() == launcher_paths(l).len()
    &&& ((forall|j: int| 0 <= j < present.len() ==> !present[j]) ==> (r matches Err(e) && e@ == launcher_missing(l)))
    &&& forall|i: int| #[trigger] first_true(present, i) ==> (r matches Ok(c)
        && line_view(c) == launcher_line(l, launcher_paths(l)[i], args, helper, setpriv))
}

/// The command of launcher `l` (not the system bus's): the first of its places that
/// holds its program, run as `launcher_line` says; an error naming the program when
/// none does. Which places hold it, and what is installed, is asked of the disk.
pub fn launcher_command(l: Launcher, args: &Vec<String>) -> (r: Result<CommandLine, String>)
    ensures
        r matches Err(e) ==> e@ == launcher_missing(l),
        r matches Ok(c) ==> exists|i: int, helper: bool, setpriv: bool|
            0 <= i < launcher_paths(l).len() && line_view(c) == #[trigger] launcher_line(l, launcher_paths(l)[i], strings_view(args@), helper, setpriv),
        exists|present: Seq<bool>, helper: bool, setpriv: bool|
            #[trigger] launcher_outcome(l, strings_view(args@), present, helper, setpriv, r),
{
    let candidates = launcher_candidates(l);
    assert(texts(candidates@) =~= launcher_paths(l));
    let found = resolve_tool(&candidates);
    let ghost present = choose|present: Seq<bool>| #[trigger] tool_choice(texts(candidates@), present, opt_text(found));
    match found {
        None => {
            let r = Err(missing_text(l));
            assert forall|i: int| #[trigger] first_true(present, i) implies false by {}
            assert(launcher_outcome(l, strings_view(args@), present, false, false, r));
            r
        },
        Some(bin) => {
            let ghost i = choose|i: int| 0 <= i < candidates@.len() && (#[trigger] candidates@[i])@ == bin@;
            assert(launcher_paths(l)[i] == candidates@.map_values(|s: &'static str| s@)[i]);
            let helper = is_file(EXEC_HELPER);
            let setpriv = is_file(SETPRIV);
            let r = Ok(launcher_command_with(l, bin.as_str(), args, helper, setpriv));
            assert forall|j: int| #[trigger] first_true(present, j) implies (r matches Ok(c)
                && line_view(c) == launcher_line(l, launcher_paths(l)[j], strings_view(args@), helper, setpriv)) by {
                assert(opt_text(found) == Some(texts(candidates@)[j]));
            }
            assert(launcher_outcome(l, strings_view(args@), present, helper, setpriv, r));
            r
        },
    }
}

fn missing_text(l: Launcher) -> (r: String)
    ensures
        r@ == launcher_missing(l),
{
    match l {
        Launcher::SystemBus => str_to_string("neither dbus-daemon nor dbus-broker-launch found"),
        Launcher::Udevd => str_to_string("systemd-udevd not found"),
        Launcher::Logind => str_to_string("elogind or systemd-logind not found"),
        Launcher::Polkit => str_to_string("polkitd not found"),
        Launcher::AccountsDaemon => str_to_string("accounts-daemon not found"),
        Launcher::NetworkManager => str_to_string("NetworkManager not found"),
        Launcher::Agetty => str_to_string("agetty not found"),
    }
}

} // verus!
