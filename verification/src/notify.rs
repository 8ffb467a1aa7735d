//! The `sd_notify` protocol: the messages services send on their notify socket.
use vstd::prelude::*;
use crate::text::{
    lower_seq, parse_u64, parse_unsigned, pieces, split_char, str_eq_ignore_case, str_to_string,
    strings_view, strip_prefix, strip_prefix_str, trim, trim_str,
};

verus! {

/// The fields of a notify message this manager understands.
#[derive(Debug, Clone)]
pub struct NotifyMessage {
    pub ready: bool,
    pub reloading: bool,
    pub stopping: bool,
    pub watchdog: bool,
    pub watchdog_usec: Option<u64>,
    pub status: Option<String>,
    pub raw: String,
}

/// The fields a message sets, as plain values: `READY=1`, `RELOADING=1`,
/// `STOPPING=1`, `WATCHDOG=1`, `WATCHDOG_USEC=` and `STATUS=`.
pub struct NotifyFields {
    pub ready: bool,
    pub reloading: bool,
    pub stopping: bool,
    pub watchdog: bool,
    pub watchdog_usec: Option<u64>,
    pub status: Option<Seq<char>>,
}

/// `part` is `word`, ignoring ASCII case.
pub open spec fn is_word(part: Seq<char>, word: Seq<char>) -> bool {
    lower_seq(part) == lower_seq(word)
}

/// The fields after reading the lines `parts`; a later `WATCHDOG_USEC=` or
/// `STATUS=` line replaces an earlier one, and a `WATCHDOG_USEC=` value that is
/// not a number is ignored.
pub open spec fn notify_fields(parts: Seq<Seq<char>>) -> NotifyFields
    decreases parts.len(),
{
    if parts.len() == 0 {
        NotifyFields {
            ready: false,
            reloading: false,
            stopping: false,
            watchdog: false,
            watchdog_usec: None,
            status: None,
        }
    } else {
        let f = notify_fields(parts.drop_last());
        let p = trim(parts.last());
        if is_word(p, "READY=1"@) {
            NotifyFields { ready: true, ..f }
        } else if is_word(p, "RELOADING=1"@) {
            NotifyFields { reloading: true, ..f }
        } else if is_word(p, "STOPPING=1"@) {
            NotifyFields { stopping: true, ..f }
        } else if is_word(p, "WATCHDOG=1"@) {
            NotifyFields { watchdog: true, ..f }
        } else if strip_prefix(p, "WATCHDOG_USEC="@) is Some {
            match parse_unsigned(trim(strip_prefix(p, "WATCHDOG_USEC="@)->0), u64::MAX as nat) {
                Some(us) => NotifyFields { watchdog_usec: Some(us as u64), ..f },
                None => f,
            }
        } else if strip_prefix(p, "STATUS="@) is Some {
            NotifyFields { status: Some(trim(strip_prefix(p, "STATUS="@)->0)), ..f }
        } else {
            f
        }
    }
}

/// The message `m` holds the fields `f`.
pub open spec fn holds(m: NotifyMessage, f: NotifyFields) -> bool {
    &&& m.ready == f.ready
    &&& m.reloading == f.reloading
    &&& m.stopping == f.stopping
    &&& m.watchdog == f.watchdog
    &&& m.watchdog_usec == f.watchdog_usec
    &&& match f.status {
        Some(s) => m.status matches Some(x) && x@ == s,
        None => m.status is None,
    }
}

/// Parses a notify message: its lines are trimmed and read in order.
pub fn parse_notify(msg: &str) -> (r: NotifyMessage)
    ensures
        r.raw@ == msg@,
        holds(r, notify_fields(pieces(msg@, '\n'))),
{
    proof {
        reveal_strlit("READY=1");
        reveal_strlit("RELOADING=1");
        reveal_strlit("STOPPING=1");
        reveal_strlit("WATCHDOG=1");
        reveal_strlit("WATCHDOG_USEC=");
        reveal_strlit("STATUS=");
    }
    let mut out = NotifyMessage {
        ready: false,
        reloading: false,
        stopping: false,
        watchdog: false,
        watchdog_usec: None,
        status: None,
        raw: str_to_string(msg),
    };
    let parts = split_char(msg, '\n');
    let ghost ps = strings_view(parts@);
    let mut i: usize = 0;
    assert(ps.take(0) =~= Seq::<Seq<char>>::empty());
    while i < parts.len()
        invariant
            i <= parts@.len(),
            ps == strings_view(parts@),
            ps == pieces(msg@, '\n'),
            out.raw@ == msg@,
            holds(out, notify_fields(ps.take(i as int))),
        decreases parts@.len() - i,
    {
        assert(ps.take(i + 1).drop_last() =~= ps.take(i as int));
        assert(ps.take(i + 1).last() == parts@[i as int]@);
        let part = trim_str(parts[i].as_str());
        let p = part.as_str();
        if str_eq_ignore_case(p, "READY=1") {
            out.ready = true;
        } else if str_eq_ignore_case(p, "RELOADING=1") {
            out.reloading = true;
        } else if str_eq_ignore_case(p, "STOPPING=1") {
            out.stopping = true;
        } else if str_eq_ignore_case(p, "WATCHDOG=1") {
            out.watchdog = true;
        } else {
            match strip_prefix_str(p, "WATCHDOG_USEC=") {
                Some(v) => {
                    let t = trim_str(v.as_str());
                    match parse_u64(t.as_str()) {
                        Some(us) => {
                            out.watchdog_usec = Some(us);
                        },
                        None => {},
                    }
                },
                None => {
                    match strip_prefix_str(p, "STATUS=") {
                        Some(v) => {
                            out.status = Some(trim_str(v.as_str()));
                        },
                        None => {},
                    }
                },
            }
        }
        i = i + 1;
    }
    assert(ps.take(parts@.len() as int) =~= ps);
    out
}

} // verus!
