//! The command lines of the client tools: `forgectl`, which sends one control request
//! and prints the answer, and `forge-journalctl`, which filters the journal.
use vstd::prelude::*;
use crate::journal::{JournalEntry, JournalQuery};
use crate::protocol::{BootProfileReport, ControlRequest, LogLine, ServiceStatus, WaveTiming};
use crate::text::{chars_of, decimal, has_prefix, joined, parse_u64, parse_u8_range, parse_unsigned, starts_with,
    str_eq, str_to_string, strings_view, u128_to_string, u64_to_string, join_with};

verus! {

/// The argument at `i`, if there is one.
pub open spec fn opt_arg(args: Seq<Seq<char>>, i: int) -> Option<Seq<char>> {
    if 0 <= i < args.len() { Some(args[i]) } else { None }
}

/// An optional string by its view.
pub open spec fn opt_view(o: Option<String>) -> Option<Seq<char>> {
    match o {
        Some(s) => Some(s@),
        None => None,
    }
}

/// The argument at `i`, copied.
pub fn arg_at(args: &Vec<String>, i: usize) -> (r: Option<String>)
    ensures
        opt_view(r) == opt_arg(strings_view(args@), i as int),
{
    if i < args.len() {
        Some(args[i].clone())
    } else {
        None
    }
}

/// The line count `forgectl logs` asks for: the number after the first `--tail` from
/// position `k` on, when it parses.
pub open spec fn tail_from(args: Seq<Seq<char>>, k: int) -> Option<usize>
    decreases args.len() - k,
{
    if k < 0 || k >= args.len() {
        None
    } else if args[k] == "--tail"@ {
        match opt_arg(args, k + 1) {
            Some(v) => match parse_unsigned(v, usize::MAX as nat) {
                Some(n) => Some(n as usize),
                None => None,
            },
            None => None,
        }
    } else {
        tail_from(args, k + 1)
    }
}

/// `str::parse::<usize>`.
pub fn parse_usize(s: &str) -> (r: Option<usize>)
    ensures
        match parse_unsigned(s@, usize::MAX as nat) {
            Some(n) => r == Some(n as usize),
            None => r is None,
        },
{
    match parse_u64(s) {
        Some(n) => {
            if n as u128 <= usize::MAX as u128 {
                Some(n as usize)
            } else {
                None
            }
        },
        None => None,
    }
}

/// The line count of `forgectl logs`, as `tail_from(args, 0)` says.
pub fn tail_option(args: &Vec<String>) -> (r: Option<usize>)
    ensures
        r == tail_from(strings_view(args@), 0),
{
    let ghost a = strings_view(args@);
    let mut k: usize = 0;
    while k < args.len()
        invariant
            k <= args@.len(),
            a == strings_view(args@),
            tail_from(a, 0) == tail_from(a, k as int),
        decreases args@.len() - k,
    {
        assert(a[k as int] == args@[k as int]@);
        if str_eq(args[k].as_str(), "--tail") {
            if k + 1 < args.len() {
                assert(a[k + 1] == args@[k + 1]@);
                return parse_usize(args[k + 1].as_str());
            }
            return None;
        }
        k = k + 1;
    }
    None
}

/// What the command line `args` of `forgectl` asks for; `None` is a usage error.
pub open spec fn command_means(args: Seq<Seq<char>>, r: Option<ControlRequest>) -> bool {
    if args.len() == 0 {
        r is None
    } else {
        let c = args[0];
        let a1 = opt_arg(args, 1);
        if c == "status"@ {
            r == Some(ControlRequest::Status)
        } else if c == "boot-profile"@ || c == "profile"@ {
            r == Some(ControlRequest::BootProfile)
        } else if c == "shutdown"@ {
            r == Some(ControlRequest::Shutdown)
        } else if c == "logs"@ {
            match a1 {
                Some(n) => r matches Some(ControlRequest::Logs { name, tail }) && name@ == n && tail == tail_from(args, 0),
                None => r is None,
            }
        } else if c == "start"@ {
            match a1 {
                Some(n) => r matches Some(ControlRequest::Start { name }) && name@ == n,
                None => r is None,
            }
        } else if c == "stop"@ {
            match a1 {
                Some(n) => r matches Some(ControlRequest::Stop { name }) && name@ == n,
                None => r is None,
            }
        } else if c == "restart"@ {
            match a1 {
                Some(n) => r matches Some(ControlRequest::Restart { name }) && name@ == n,
                None => r is None,
            }
        } else if c == "reload"@ {
            match a1 {
                Some(n) => r matches Some(ControlRequest::Reload { name }) && name@ == n,
                None => r is None,
            }
        } else if c == "activate-target"@ {
            match a1 {
                Some(n) => r matches Some(ControlRequest::ActivateTarget { name }) && name@ == n,
                None => r is None,
            }
        } else if c == "enable"@ {
            match a1 {
                Some(n) => r matches Some(ControlRequest::Enable { service, runlevel }) && service@ == n
                    && opt_view(runlevel) == opt_arg(args, 2),
                None => r is None,
            }
        } else if c == "disable"@ {
            match a1 {
                Some(n) => r matches Some(ControlRequest::Disable { service, runlevel }) && service@ == n
                    && opt_view(runlevel) == opt_arg(args, 2),
                None => r is None,
            }
        } else if c == "list"@ || c == "ls"@ {
            r matches Some(ControlRequest::RcUpdateShow { runlevel }) && opt_view(runlevel) == a1
        } else if c == "rc-update"@ {
            if a1 == Some("add"@) {
                match (opt_arg(args, 2), opt_arg(args, 3)) {
                    (Some(s), Some(l)) => r matches Some(ControlRequest::RcUpdateAdd { service, runlevel })
                        && service@ == s && runlevel@ == l,
                    _ => r is None,
                }
            } else if a1 == Some("del"@) || a1 == Some("delete"@) || a1 == Some("remove"@) {
                match (opt_arg(args, 2), opt_arg(args, 3)) {
                    (Some(s), Some(l)) => r matches Some(ControlRequest::RcUpdateDel { service, runlevel })
                        && service@ == s && runlevel@ == l,
                    _ => r is None,
                }
            } else if a1 == Some("show"@) || a1 == Some("list"@) {
                r matches Some(ControlRequest::RcUpdateShow { runlevel }) && opt_view(runlevel) == opt_arg(args, 2)
            } else {
                r is None
            }
        } else if !starts_with(c, "-"@) && args.len() == 1 {
            r matches Some(ControlRequest::Service { name }) && name@ == c
        } else {
            r is None
        }
    }
}

/// The request the command line `args` of `forgectl` asks for, as `command_means`
/// says; `None` when `args` is no valid command line.
pub fn parse_command(args: &Vec<String>) -> (r: Option<ControlRequest>)
    ensures
        command_means(strings_view(args@), r),
{
    let ghost a = strings_view(args@);
    if args.len() == 0 {
        return None;
    }
    assert(a[0] == args@[0]@);
    let c = args[0].as_str();
    let a1 = arg_at(args, 1);
    if str_eq(c, "status") {
        Some(ControlRequest::Status)
    } else if str_eq(c, "boot-profile") || str_eq(c, "profile") {
        Some(ControlRequest::BootProfile)
    } else if str_eq(c, "shutdown") {
        Some(ControlRequest::Shutdown)
    } else if str_eq(c, "logs") {
        match a1 {
            Some(name) => {
                let tail = tail_option(args);
                Some(ControlRequest::Logs { name, tail })
            },
            None => None,
        }
    } else if str_eq(c, "start") {
        match a1 {
            Some(name) => Some(ControlRequest::Start { name }),
            None => None,
        }
    } else if str_eq(c, "stop") {
        match a1 {
            Some(name) => Some(ControlRequest::Stop { name }),
            None => None,
        }
    } else if str_eq(c, "restart") {
        match a1 {
            Some(name) => Some(ControlRequest::Restart { name }),
            None => None,
        }
    } else if str_eq(c, "reload") {
        match a1 {
            Some(name) => Some(ControlRequest::Reload { name }),
            None => None,
        }
    } else if str_eq(c, "activate-target") {
        match a1 {
            Some(name) => Some(ControlRequest::ActivateTarget { name }),
            None => None,
        }
    } else if str_eq(c, "enable") {
        match a1 {
            Some(service) => Some(ControlRequest::Enable { service, runlevel: arg_at(args, 2) }),
            None => None,
        }
    } else if str_eq(c, "disable") {
        match a1 {
            Some(service) => Some(ControlRequest::Disable { service, runlevel: arg_at(args, 2) }),
            None => None,
        }
    } else if str_eq(c, "list") || str_eq(c, "ls") {
        Some(ControlRequest::RcUpdateShow { runlevel: a1 })
    } else if str_eq(c, "rc-update") {
        let sub = match &a1 {
            Some(s) => s.as_str(),
            None => {
                return None;
            },
        };
        assert(opt_view(a1) == Some(sub@));
        if str_eq(sub, "add") || str_eq(sub, "del") || str_eq(sub, "delete") || str_eq(sub, "remove") {
            let s = arg_at(args, 2);
            let l = arg_at(args, 3);
            match (s, l) {
                (Some(service), Some(runlevel)) => {
                    if str_eq(sub, "add") {
                        Some(ControlRequest::RcUpdateAdd { service, runlevel })
                    } else {
                        Some(ControlRequest::RcUpdateDel { service, runlevel })
                    }
                },
                _ => None,
            }
        } else if str_eq(sub, "show") || str_eq(sub, "list") {
            Some(ControlRequest::RcUpdateShow { runlevel: arg_at(args, 2) })
        } else {
            None
        }
    } else {
        let v = chars_of(c);
        let dash = chars_of("-");
        if !has_prefix(v.as_slice(), dash.as_slice()) && args.len() == 1 {
            Some(ControlRequest::Service { name: str_to_string(c) })
        } else {
            None
        }
    }
}

/// `n` spaces.
pub open spec fn spaces(n: nat) -> Seq<char> {
    Seq::new(n, |i: int| ' ')
}

/// `s` padded with spaces on the right to `w` characters, as `{:w}` writes a string.
pub open spec fn pad_right(s: Seq<char>, w: nat) -> Seq<char> {
    if s.len() < w { s + spaces((w - s.len()) as nat) } else { s }
}

/// Appends `s` to `out`.
pub fn append(out: &mut String, s: &str)
    ensures
        final(out)@ == old(out)@ + s@,
{
    let ghost start = out@;
    let v = chars_of(s);
    let mut i: usize = 0;
    while i < v.len()
        invariant
            i <= v@.len(),
            v@ == s@,
            out@ == start + v@.take(i as int),
        decreases v@.len() - i,
    {
        out.push(v[i]);
        assert(v@.take(i + 1) =~= v@.take(i as int).push(v@[i as int]));
        i = i + 1;
    }
    assert(v@.take(v@.len() as int) =~= v@);
}

/// Appends `s` padded to `w` characters, as `pad_right` says.
pub fn append_padded(out: &mut String, s: &str, w: usize)
    ensures
        final(out)@ == old(out)@ + pad_right(s@, w as nat),
{
    let ghost start = out@;
    append(out, s);
    let n0 = chars_of(s).len();
    let mut n = n0;
    while n < w
        invariant
            n0 == s@.len(),
            n0 <= n,
            n <= w || n == n0,
            out@ == start + s@ + spaces((n - n0) as nat),
        decreases w - n,
    {
        out.push(' ');
        assert(spaces((n + 1 - n0) as nat) =~= spaces((n - n0) as nat).push(' '));
        n = n + 1;
    }
    assert(s@.len() >= w ==> spaces((n - n0) as nat) =~= Seq::<char>::empty());
    assert(s@.len() < w ==> n == w);
}

/// How `forgectl status` lists one unit: name, kind and state in columns of 16, 8 and
/// 12 characters, then its pid, `-` when it has none.
pub open spec fn status_line_of(svc: ServiceStatus) -> Seq<char> {
    pad_right(svc.name@, 16) + " "@ + pad_right(svc.kind@, 8) + " "@ + pad_right(svc.state@, 12) + " pid="@
        + match svc.pid {
        Some(p) => decimal(p as nat),
        None => "-"@,
    }
}

/// The line `forgectl status` prints for `svc`, as `status_line_of` says.
pub fn status_line(svc: &ServiceStatus) -> (r: String)
    ensures
        r@ == status_line_of(*svc),
{
    let mut out = String::new();
    append_padded(&mut out, svc.name.as_str(), 16);
    append(&mut out, " ");
    append_padded(&mut out, svc.kind.as_str(), 8);
    append(&mut out, " ");
    append_padded(&mut out, svc.state.as_str(), 12);
    append(&mut out, " pid=");
    match svc.pid {
        Some(p) => {
            let d = u64_to_string(p as u64);
            append(&mut out, d.as_str());
        },
        None => append(&mut out, "-"),
    }
    out
}

/// The first line of the boot profile: total time and target.
pub open spec fn profile_header_of(p: BootProfileReport) -> Seq<char> {
    "Boot "@ + decimal(p.total_boot_ms as nat) + " ms \u{2014} target '"@ + p.active_target@ + "'"@
}

/// One wave of the boot profile: its number, time and services.
pub open spec fn wave_line_of(w: WaveTiming) -> Seq<char> {
    "  wave "@ + decimal(w.wave as nat) + ": "@ + decimal(w.duration_ms as nat) + " ms \u{2014} "@
        + joined(strings_view(w.services@), ", "@)
}

/// The header line of the boot profile, as `profile_header_of` says.
pub fn profile_header(p: &BootProfileReport) -> (r: String)
    ensures
        r@ == profile_header_of(*p),
{
    let mut out = String::new();
    append(&mut out, "Boot ");
    let d = u128_to_string(p.total_boot_ms);
    append(&mut out, d.as_str());
    append(&mut out, " ms \u{2014} target '");
    append(&mut out, p.active_target.as_str());
    append(&mut out, "'");
    out
}

/// The line of one boot wave, as `wave_line_of` says.
pub fn wave_line(w: &WaveTiming) -> (r: String)
    ensures
        r@ == wave_line_of(*w),
{
    let mut out = String::new();
    append(&mut out, "  wave ");
    let n = u64_to_string(w.wave as u64);
    append(&mut out, n.as_str());
    append(&mut out, ": ");
    let d = u128_to_string(w.duration_ms);
    append(&mut out, d.as_str());
    append(&mut out, " ms \u{2014} ");
    let j = join_with(&w.services, ", ");
    append(&mut out, j.as_str());
    out
}

/// How `forgectl logs` prints one line: its source in brackets, its time when it has
/// one, and its message.
pub open spec fn log_text_of(l: LogLine) -> Seq<char> {
    match l.ts {
        Some(ts) => "["@ + l.source@ + "] "@ + decimal(ts as nat) + ": "@ + l.message@,
        None => "["@ + l.source@ + "] "@ + l.message@,
    }
}

/// The printed form of a log line, as `log_text_of` says.
pub fn log_text(l: &LogLine) -> (r: String)
    ensures
        r@ == log_text_of(*l),
{
    let mut out = String::new();
    append(&mut out, "[");
    append(&mut out, l.source.as_str());
    append(&mut out, "] ");
    match l.ts {
        Some(ts) => {
            let d = u128_to_string(ts);
            append(&mut out, d.as_str());
            append(&mut out, ": ");
        },
        None => {},
    }
    append(&mut out, l.message.as_str());
    out
}

/// How `forge-journalctl` prints an entry: time, priority in brackets, unit, its pid
/// when it has one, and the message.
pub open spec fn journal_text_of(e: JournalEntry) -> Seq<char> {
    decimal(e.ts as nat) + " ["@ + decimal(e.priority as nat) + "] "@ + e.unit@ + match e.pid {
        Some(p) => " pid="@ + decimal(p as nat),
        None => Seq::empty(),
    } + ": "@ + e.message@
}

/// The printed form of a journal entry, as `journal_text_of` says.
pub fn journal_text(e: &JournalEntry) -> (r: String)
    ensures
        r@ == journal_text_of(*e),
{
    let mut out = u128_to_string(e.ts);
    append(&mut out, " [");
    let p = u64_to_string(e.priority as u64);
    append(&mut out, p.as_str());
    append(&mut out, "] ");
    append(&mut out, e.unit.as_str());
    match e.pid {
        Some(pid) => {
            append(&mut out, " pid=");
            let d = u64_to_string(pid as u64);
            append(&mut out, d.as_str());
        },
        None => {},
    }
    append(&mut out, ": ");
    append(&mut out, e.message.as_str());
    out
}

/// What the command line of `forge-journalctl` selects, read from position `i` on with
/// the choices `st` so far (unit, highest priority, start time, line count); `None` is
/// a usage error. `--since-boot` starts an hour before `now`.
pub open spec fn journal_opts(
    args: Seq<Seq<char>>,
    i: int,
    now: u128,
    st: (Option<Seq<char>>, Option<u8>, Option<u128>, nat),
) -> Option<(Option<Seq<char>>, Option<u8>, Option<u128>, nat)>
    decreases args.len() - i,
{
    if i < 0 || i >= args.len() {
        Some(st)
    } else {
        let a = args[i];
        if a == "-u"@ || a == "--unit"@ {
            match opt_arg(args, i + 1) {
                Some(u) => journal_opts(args, i + 2, now, (Some(u), st.1, st.2, st.3)),
                None => None,
            }
        } else if a == "-p"@ || a == "--priority"@ {
            match opt_arg(args, i + 1) {
                Some(v) => match parse_unsigned(v, u8::MAX as nat) {
                    Some(n) => journal_opts(args, i + 2, now, (st.0, Some(n as u8), st.2, st.3)),
                    None => None,
                },
                None => None,
            }
        } else if a == "-n"@ || a == "--lines"@ {
            match opt_arg(args, i + 1) {
                Some(v) => match parse_unsigned(v, usize::MAX as nat) {
                    Some(n) => journal_opts(args, i + 2, now, (st.0, st.1, st.2, n)),
                    None => None,
                },
                None => None,
            }
        } else if a == "--since-boot"@ {
            let since: u128 = if now >= 3_600_000 { (now - 3_600_000) as u128 } else { 0 };
            journal_opts(args, i + 1, now, (st.0, st.1, Some(since), st.3))
        } else {
            None
        }
    }
}

/// The journal query the command line `args` of `forge-journalctl` asks for at time
/// `now_ms`, as `journal_opts` says; `None` when `args` is no valid command line.
pub fn parse_journal_args(args: &Vec<String>, now_ms: u128) -> (r: Option<JournalQuery>)
    ensures
        match journal_opts(strings_view(args@), 0, now_ms, (None, None, None, 0)) {
            Some(st) => r matches Some(q) && opt_view(q.unit) == st.0 && q.priority_max == st.1
                && q.since_ts == st.2 && q.tail as nat == st.3 && !q.follow,
            None => r is None,
        },
{
    let ghost a = strings_view(args@);
    let mut unit: Option<String> = None;
    let mut priority_max: Option<u8> = None;
    let mut since_ts: Option<u128> = None;
    let mut tail: usize = 0;
    let mut i: usize = 0;
    while i < args.len()
        invariant
            i <= args@.len(),
            a == strings_view(args@),
            journal_opts(a, 0, now_ms, (None, None, None, 0)) == journal_opts(
                a,
                i as int,
                now_ms,
                (opt_view(unit), priority_max, since_ts, tail as nat),
            ),
        decreases args@.len() - i,
    {
        assert(a[i as int] == args@[i as int]@);
        let opt = args[i].as_str();
        if str_eq(opt, "-u") || str_eq(opt, "--unit") {
            match arg_at(args, i + 1) {
                Some(u) => {
                    unit = Some(u);
                },
                None => {
                    return None;
                },
            }
            i = i + 2;
        } else if str_eq(opt, "-p") || str_eq(opt, "--priority") {
            if i + 1 >= args.len() {
                return None;
            }
            assert(a[i + 1] == args@[i + 1]@);
            let v = chars_of(args[i + 1].as_str());
            assert(v@.subrange(0, v@.len() as int) =~= v@);
            match parse_u8_range(v.as_slice(), 0, v.len()) {
                Some(n) => {
                    priority_max = Some(n);
                },
                None => {
                    return None;
                },
            }
            i = i + 2;
        } else if str_eq(opt, "-n") || str_eq(opt, "--lines") {
            if i + 1 >= args.len() {
                return None;
            }
            assert(a[i + 1] == args@[i + 1]@);
            match parse_usize(args[i + 1].as_str()) {
                Some(n) => {
                    tail = n;
                },
                None => {
                    return None;
                },
            }
            i = i + 2;
        } else if str_eq(opt, "--since-boot") {
            since_ts = Some(now_ms.saturating_sub(3_600_000));
            i = i + 1;
        } else {
            return None;
        }
    }
    Some(JournalQuery { unit, priority_max, since_ts, tail, follow: false })
}

} // verus!
