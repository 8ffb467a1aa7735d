//! What the init process does with a control request, and what it answers.
use vstd::prelude::*;
use crate::journal::JournalEntry;
use crate::protocol::{ControlRequest, ControlResponse, LogLine, ServiceStatus};
use crate::text::{concat, joined, join_with, str_eq, str_to_string, strings_view, u64_to_string, decimal};

verus! {

/// A control request with its defaults filled in: what the init process does for it.
#[derive(Debug)]
pub enum ControlAction {
    Status,
    BootProfile,
    Logs { name: String, tail: usize },
    Start { name: String },
    Stop { name: String },
    Restart { name: String },
    Reload { name: String },
    ActivateTarget { name: String },
    Enable { service: String, runlevel: String },
    Disable { service: String, runlevel: String },
    Service { name: String },
    ShowRunlevels { runlevel: Option<String> },
    Shutdown,
}

/// How many log lines a request that names no number gets.
pub const DEFAULT_LOG_TAIL: usize = 50;

/// The runlevel `enable` and `disable` use when the request names none.
pub open spec fn default_runlevel() -> Seq<char> {
    "graphical"@
}

/// `a` is what `req` asks for: missing log tails become 50, missing runlevels of
/// `enable` and `disable` become `graphical`, and the `rc-update` requests become
/// the enabling, disabling and listing they stand for.
pub open spec fn action_for(req: ControlRequest, a: ControlAction) -> bool {
    match req {
        ControlRequest::Status => a is Status,
        ControlRequest::BootProfile => a is BootProfile,
        ControlRequest::Logs { name, tail } => a matches ControlAction::Logs { name: n, tail: t }
            && n@ == name@ && t == match tail {
                Some(x) => x,
                None => DEFAULT_LOG_TAIL,
            },
        ControlRequest::Start { name } => a matches ControlAction::Start { name: n } && n@ == name@,
        ControlRequest::Stop { name } => a matches ControlAction::Stop { name: n } && n@ == name@,
        ControlRequest::Restart { name } => a matches ControlAction::Restart { name: n } && n@ == name@,
        ControlRequest::Reload { name } => a matches ControlAction::Reload { name: n } && n@ == name@,
        ControlRequest::ActivateTarget { name } => a matches ControlAction::ActivateTarget { name: n } && n@ == name@,
        ControlRequest::Enable { service, runlevel } => a matches ControlAction::Enable { service: s, runlevel: l }
            && s@ == service@ && l@ == match runlevel {
                Some(x) => x@,
                None => default_runlevel(),
            },
        ControlRequest::Disable { service, runlevel } => a matches ControlAction::Disable { service: s, runlevel: l }
            && s@ == service@ && l@ == match runlevel {
                Some(x) => x@,
                None => default_runlevel(),
            },
        ControlRequest::Service { name } => a matches ControlAction::Service { name: n } && n@ == name@,
        ControlRequest::RcUpdateAdd { service, runlevel } => a matches ControlAction::Enable { service: s, runlevel: l }
            && s@ == service@ && l@ == runlevel@,
        ControlRequest::RcUpdateDel { service, runlevel } => a matches ControlAction::Disable { service: s, runlevel: l }
            && s@ == service@ && l@ == runlevel@,
        ControlRequest::RcUpdateShow { runlevel } => a matches ControlAction::ShowRunlevels { runlevel: l } && l == runlevel,
        ControlRequest::Shutdown => a is Shutdown,
    }
}

fn runlevel_or_default(runlevel: Option<String>) -> (r: String)
    ensures
        r@ == match runlevel {
            Some(x) => x@,
            None => default_runlevel(),
        },
{
    match runlevel {
        Some(x) => x,
        None => str_to_string("graphical"),
    }
}

/// Each request that names a unit plans the action of its own kind for that same
/// name: `start` starts it, `stop` stops it, `restart` restarts it (never a bare
/// start), `reload` reloads it, `activate` switches to that target and `service`
/// describes it; `status`, `boot-profile` and `shutdown` do what they say.
pub proof fn law_requests_keep_their_kind(req: ControlRequest, a: ControlAction)
    requires
        action_for(req, a),
    ensures
        (req matches ControlRequest::Start { name } ==> a matches ControlAction::Start { name: n } && n@ == name@),
        (req matches ControlRequest::Stop { name } ==> a matches ControlAction::Stop { name: n } && n@ == name@),
        (req matches ControlRequest::Restart { name } ==> a matches ControlAction::Restart { name: n } && n@ == name@),
        (req matches ControlRequest::Reload { name } ==> a matches ControlAction::Reload { name: n } && n@ == name@),
        (req matches ControlRequest::ActivateTarget { name } ==> a matches ControlAction::ActivateTarget { name: n }
            && n@ == name@),
        (req matches ControlRequest::Service { name } ==> a matches ControlAction::Service { name: n } && n@ == name@),
        (req is Status ==> a is Status),
        (req is BootProfile ==> a is BootProfile),
        (req is Shutdown ==> a is Shutdown),
        (req is Restart ==> !(a is Start) && !(a is Stop)),
{
}

/// The defaults a request gets: `logs` without a count asks for the last 50 lines,
/// `enable` and `disable` without a runlevel use `graphical`, and the `rc-update`
/// requests enable, disable and list at the runlevel they name.
pub proof fn law_request_defaults(req: ControlRequest, a: ControlAction)
    requires
        action_for(req, a),
    ensures
        (req matches ControlRequest::Logs { name, tail: None } ==> a matches ControlAction::Logs { name: n, tail: t }
            && n@ == name@ && t == 50),
        (req matches ControlRequest::Enable { service, runlevel: None }
            ==> a matches ControlAction::Enable { service: s, runlevel: l } && s@ == service@ && l@ == "graphical"@),
        (req matches ControlRequest::Disable { service, runlevel: None }
            ==> a matches ControlAction::Disable { service: s, runlevel: l } && s@ == service@ && l@ == "graphical"@),
        (req matches ControlRequest::RcUpdateAdd { service, runlevel }
            ==> a matches ControlAction::Enable { service: s, runlevel: l } && s@ == service@ && l@ == runlevel@),
        (req matches ControlRequest::RcUpdateDel { service, runlevel }
            ==> a matches ControlAction::Disable { service: s, runlevel: l } && s@ == service@ && l@ == runlevel@),
{
}

/// What the init process does for `req`.
pub fn plan_request(req: ControlRequest) -> (r: ControlAction)
    ensures
        action_for(req, r),
{
    match req {
        ControlRequest::Status => ControlAction::Status,
        ControlRequest::BootProfile => ControlAction::BootProfile,
        ControlRequest::Logs { name, tail } => ControlAction::Logs {
            name,
            tail: match tail {
                Some(x) => x,
                None => DEFAULT_LOG_TAIL,
            },
        },
        ControlRequest::Start { name } => ControlAction::Start { name },
        ControlRequest::Stop { name } => ControlAction::Stop { name },
        ControlRequest::Restart { name } => ControlAction::Restart { name },
        ControlRequest::Reload { name } => ControlAction::Reload { name },
        ControlRequest::ActivateTarget { name } => ControlAction::ActivateTarget { name },
        ControlRequest::Enable { service, runlevel } => ControlAction::Enable {
            service,
            runlevel: runlevel_or_default(runlevel),
        },
        ControlRequest::Disable { service, runlevel } => ControlAction::Disable {
            service,
            runlevel: runlevel_or_default(runlevel),
        },
        ControlRequest::Service { name } => ControlAction::Service { name },
        ControlRequest::RcUpdateAdd { service, runlevel } => ControlAction::Enable { service, runlevel },
        ControlRequest::RcUpdateDel { service, runlevel } => ControlAction::Disable { service, runlevel },
        ControlRequest::RcUpdateShow { runlevel } => ControlAction::ShowRunlevels { runlevel },
        ControlRequest::Shutdown => ControlAction::Shutdown,
    }
}

/// An action that is done by changing something and is answered with a message.
pub open spec fn answers_with_message(a: ControlAction) -> bool {
    a is Start || a is Stop || a is Restart || a is Reload || a is ActivateTarget || a is Enable
        || a is Disable || a is Shutdown
}

/// The message that answers action `a` once it is done; `pid` is the process a start
/// or restart gave.
pub open spec fn done_message(a: ControlAction, pid: Option<u32>) -> Seq<char> {
    let p = match pid {
        Some(x) => decimal(x as nat),
        None => Seq::empty(),
    };
    match a {
        ControlAction::Start { name } => "started '"@ + name@ + "' (pid "@ + p + ")"@,
        ControlAction::Stop { name } => "stopped '"@ + name@ + "'"@,
        ControlAction::Restart { name } => "restarted '"@ + name@ + "' (pid "@ + p + ")"@,
        ControlAction::Reload { name } => "reloaded '"@ + name@ + "'"@,
        ControlAction::ActivateTarget { name } => "target '"@ + name@ + "' activated"@,
        ControlAction::Enable { service, runlevel } => "enabled '"@ + service@ + "' for '"@ + runlevel@ + "'"@,
        ControlAction::Disable { service, runlevel } => "disabled '"@ + service@ + "' for '"@ + runlevel@ + "'"@,
        ControlAction::Shutdown => "shutdown initiated"@,
        _ => Seq::empty(),
    }
}

fn concat3(a: &str, b: &str, c: &str) -> (r: String)
    ensures
        r@ == a@ + b@ + c@,
{
    let ab = concat(a, b);
    concat(ab.as_str(), c)
}

fn with_pid(opening: &str, name: &str, pid: u32) -> (r: String)
    ensures
        r@ == opening@ + name@ + "' (pid "@ + decimal(pid as nat) + ")"@,
{
    let a = concat3(opening, name, "' (pid ");
    let n = u64_to_string(pid as u64);
    concat3(a.as_str(), n.as_str(), ")")
}

/// The answer to action `a`, which changes something, once it was tried: the error's
/// text when it failed, else the message saying it was done.
pub fn action_reply(a: &ControlAction, outcome: Result<Option<u32>, String>) -> (r: ControlResponse)
    requires
        answers_with_message(*a),
        (a is Start || a is Restart) ==> (outcome matches Ok(p) ==> p is Some),
    ensures
        match outcome {
            Err(m) => r == ControlResponse::Error { message: m },
            Ok(p) => r matches ControlResponse::Success { message: Some(t), services: None, profile: None, logs: None }
                && t@ == done_message(*a, p),
        },
{
    let pid = match outcome {
        Err(m) => {
            return ControlResponse::err(m);
        },
        Ok(p) => p,
    };
    let text = match a {
        ControlAction::Start { name } => match pid {
            Some(p) => with_pid("started '", name.as_str(), p),
            None => str_to_string(""),
        },
        ControlAction::Stop { name } => concat3("stopped '", name.as_str(), "'"),
        ControlAction::Restart { name } => match pid {
            Some(p) => with_pid("restarted '", name.as_str(), p),
            None => str_to_string(""),
        },
        ControlAction::Reload { name } => concat3("reloaded '", name.as_str(), "'"),
        ControlAction::ActivateTarget { name } => concat3("target '", name.as_str(), "' activated"),
        ControlAction::Enable { service, runlevel } => {
            let a1 = concat3("enabled '", service.as_str(), "' for '");
            concat3(a1.as_str(), runlevel.as_str(), "'")
        },
        ControlAction::Disable { service, runlevel } => {
            let a1 = concat3("disabled '", service.as_str(), "' for '");
            concat3(a1.as_str(), runlevel.as_str(), "'")
        },
        _ => str_to_string("shutdown initiated"),
    };
    ControlResponse::ok_message(text)
}

/// The statuses among `snapshot` of the unit named `name`, in order.
pub open spec fn named_in(snapshot: Seq<ServiceStatus>, name: Seq<char>) -> Seq<ServiceStatus>
    decreases snapshot.len(),
{
    if snapshot.len() == 0 {
        Seq::empty()
    } else {
        let r = named_in(snapshot.drop_last(), name);
        if snapshot.last().name@ == name {
            r.push(snapshot.last())
        } else {
            r
        }
    }
}

/// The statuses among `snapshot` of the unit named `name`, in order.
pub fn services_named(snapshot: Vec<ServiceStatus>, name: &str) -> (r: Vec<ServiceStatus>)
    ensures
        r@ == named_in(snapshot@, name@),
{
    let ghost all = snapshot@;
    let total = snapshot.len();
    let mut rest = snapshot;
    let mut r: Vec<ServiceStatus> = Vec::new();
    let mut i: usize = 0;
    while rest.len() > 0
        invariant
            i <= all.len(),
            all.len() == total,
            rest@ == all.skip(i as int),
            r@ == named_in(all.take(i as int), name@),
        decreases rest@.len(),
    {
        let s = rest.remove(0);
        assert(s == all[i as int]);
        assert(all.take(i + 1).drop_last() =~= all.take(i as int));
        assert(all.take(i + 1).last() == s);
        if str_eq(s.name.as_str(), name) {
            r.push(s);
        }
        i = i + 1;
        assert(rest@ =~= all.skip(i as int));
    }
    assert(all.take(i as int) =~= all);
    r
}

/// The lines `forgectl logs` shows: the journal's entries, with their time, then the
/// lines of the service's log file.
pub open spec fn log_lines_of(journal: Seq<JournalEntry>, file_lines: Seq<String>) -> Seq<(Seq<char>, Option<u128>, Seq<char>)> {
    journal.map_values(|e: JournalEntry| ("journal"@, Some(e.ts), e.message@))
        + file_lines.map_values(|l: String| ("stdout"@, None::<u128>, l@))
}

/// The view of a log line: its source, time and message.
pub open spec fn log_line_view(l: LogLine) -> (Seq<char>, Option<u128>, Seq<char>) {
    (l.source@, l.ts, l.message@)
}

/// The log lines of a unit: its journal entries, then the lines of its log file.
pub fn log_lines(journal: &Vec<JournalEntry>, file_lines: &Vec<String>) -> (r: Vec<LogLine>)
    ensures
        r@.map_values(|l: LogLine| log_line_view(l)) == log_lines_of(journal@, file_lines@),
{
    let mut r: Vec<LogLine> = Vec::new();
    let mut i: usize = 0;
    while i < journal.len()
        invariant
            i <= journal@.len(),
            r@.map_values(|l: LogLine| log_line_view(l)) == log_lines_of(journal@.take(i as int), Seq::empty()),
        decreases journal@.len() - i,
    {
        let ghost before = r@;
        let line = LogLine { source: str_to_string("journal"), ts: Some(journal[i].ts), message: journal[i].message.clone() };
        assert(log_line_view(line) == ("journal"@, Some(journal@[i as int].ts), journal@[i as int].message@));
        r.push(line);
        assert(r@.map_values(|l: LogLine| log_line_view(l)) =~= before.map_values(|l: LogLine| log_line_view(l)).push(log_line_view(line)));
        i = i + 1;
        assert(journal@.take(i as int) =~= journal@.take(i - 1).push(journal@[i - 1]));
        assert(r@.map_values(|l: LogLine| log_line_view(l)) =~= log_lines_of(journal@.take(i as int), Seq::empty()));
    }
    assert(journal@.take(journal@.len() as int) =~= journal@);
    let mut j: usize = 0;
    while j < file_lines.len()
        invariant
            j <= file_lines@.len(),
            r@.map_values(|l: LogLine| log_line_view(l)) == log_lines_of(journal@, file_lines@.take(j as int)),
        decreases file_lines@.len() - j,
    {
        let ghost before = r@;
        let line = LogLine { source: str_to_string("stdout"), ts: None, message: file_lines[j].clone() };
        assert(log_line_view(line) == ("stdout"@, None::<u128>, file_lines@[j as int]@));
        r.push(line);
        assert(r@.map_values(|l: LogLine| log_line_view(l)) =~= before.map_values(|l: LogLine| log_line_view(l)).push(log_line_view(line)));
        j = j + 1;
        assert(file_lines@.take(j as int) =~= file_lines@.take(j - 1).push(file_lines@[j - 1]));
        assert(r@.map_values(|l: LogLine| log_line_view(l)) =~= log_lines_of(journal@, file_lines@.take(j as int)));
    }
    assert(file_lines@.take(file_lines@.len() as int) =~= file_lines@);
    r
}

/// How `rc-update show` lists one runlevel: its name, a colon, and its services.
pub open spec fn runlevel_line(runlevel: Seq<char>, services: Seq<Seq<char>>) -> Seq<char> {
    runlevel + ": "@ + joined(services, " "@)
}

/// The listing of one runlevel and its enabled services.
pub fn runlevel_listing(runlevel: &str, services: &Vec<String>) -> (r: String)
    ensures
        r@ == runlevel_line(runlevel@, strings_view(services@)),
{
    let head = concat(runlevel, ": ");
    let body = join_with(services, " ");
    concat(head.as_str(), body.as_str())
}

/// The listing of every runlevel, one line each.
pub open spec fn runlevels_text(all: Seq<(String, Vec<String>)>) -> Seq<char> {
    joined(all.map_values(|e: (String, Vec<String>)| runlevel_line(e.0@, strings_view(e.1@))), "\n"@)
}

/// The listing of every runlevel with its enabled services, one line each.
pub fn all_runlevels_listing(all: &Vec<(String, Vec<String>)>) -> (r: String)
    ensures
        r@ == runlevels_text(all@),
{
    let mut lines: Vec<String> = Vec::new();
    let mut i: usize = 0;
    while i < all.len()
        invariant
            i <= all@.len(),
            strings_view(lines@) == all@.take(i as int).map_values(|e: (String, Vec<String>)| runlevel_line(e.0@, strings_view(e.1@))),
        decreases all@.len() - i,
    {
        let ghost before = lines@;
        let line = runlevel_listing(all[i].0.as_str(), &all[i].1);
        lines.push(line);
        assert(strings_view(lines@) =~= strings_view(before).push(line@));
        assert(all@.take(i + 1) =~= all@.take(i as int).push(all@[i as int]));
        i = i + 1;
        assert(strings_view(lines@) =~= all@.take(i as int).map_values(|e: (String, Vec<String>)| runlevel_line(e.0@, strings_view(e.1@))));
    }
    assert(all@.take(all@.len() as int) =~= all@);
    join_with(&lines, "\n")
}

} // verus!
