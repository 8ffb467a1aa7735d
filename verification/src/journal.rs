//! The journal: entries units log, and the queries `forgectl logs` runs on them.
use vstd::prelude::*;
use crate::text::{str_eq, str_to_string};

verus! {

/// One journal entry.
#[derive(Debug)]
pub struct JournalEntry {
    pub ts: u128,
    pub unit: String,
    pub priority: u8,
    pub message: String,
    pub pid: Option<u32>,
}

/// What to select from the journal.
#[derive(Debug)]
pub struct JournalQuery {
    pub unit: Option<String>,
    pub priority_max: Option<u8>,
    pub since_ts: Option<u128>,
    pub tail: usize,
    pub follow: bool,
}

/// An entry is selected by a query: of its unit, at most its priority, not older
/// than its start.
pub open spec fn selects(q: JournalQuery, e: JournalEntry) -> bool {
    &&& (q.unit matches Some(u) ==> e.unit@ == u@)
    &&& (q.priority_max matches Some(p) ==> e.priority <= p)
    &&& (q.since_ts matches Some(t) ==> e.ts >= t)
}

/// The entries of `entries` a query selects, in order.
pub open spec fn selected(entries: Seq<JournalEntry>, q: JournalQuery) -> Seq<JournalEntry>
    decreases entries.len(),
{
    if entries.len() == 0 {
        Seq::empty()
    } else {
        let r = selected(entries.drop_last(), q);
        if selects(q, entries.last()) { r.push(entries.last()) } else { r }
    }
}

/// The last `tail` of `s`; all of it when `tail` is 0.
pub open spec fn last_n<T>(s: Seq<T>, tail: nat) -> Seq<T> {
    if tail > 0 && s.len() > tail { s.skip(s.len() - tail) } else { s }
}

/// Keeps the last `tail` entries; all of them when `tail` is 0.
fn keep_tail<T>(v: Vec<T>, tail: usize) -> (r: Vec<T>)
    ensures
        r@ == last_n(v@, tail as nat),
{
    let mut v = v;
    if tail > 0 && v.len() > tail {
        let at = v.len() - tail;
        let ghost whole = v@;
        let rest = v.split_off(at);
        assert(rest@ =~= whole.skip(whole.len() - tail));
        return rest;
    }
    v
}

/// A copy of an entry.
pub fn copy_entry(e: &JournalEntry) -> (r: JournalEntry)
    ensures
        r == *e,
{
    JournalEntry { ts: e.ts, unit: e.unit.clone(), priority: e.priority, message: e.message.clone(), pid: e.pid }
}

/// Whether the query selects the entry.
pub fn entry_matches(q: &JournalQuery, e: &JournalEntry) -> (r: bool)
    ensures
        r == selects(*q, *e),
{
    match &q.unit {
        Some(u) => {
            if !str_eq(e.unit.as_str(), u.as_str()) {
                return false;
            }
        },
        None => {},
    }
    match q.priority_max {
        Some(p) => {
            if e.priority > p {
                return false;
            }
        },
        None => {},
    }
    match q.since_ts {
        Some(t) => {
            if e.ts < t {
                return false;
            }
        },
        None => {},
    }
    true
}

/// The entries a query selects, the last `q.tail` of them when it is not 0.
pub fn query_entries(entries: &Vec<JournalEntry>, q: &JournalQuery) -> (r: Vec<JournalEntry>)
    ensures
        r@ == last_n(selected(entries@, *q), q.tail as nat),
{
    let mut out: Vec<JournalEntry> = Vec::new();
    let mut i: usize = 0;
    assert(entries@.take(0) =~= Seq::<JournalEntry>::empty());
    while i < entries.len()
        invariant
            i <= entries@.len(),
            out@ == selected(entries@.take(i as int), *q),
        decreases entries@.len() - i,
    {
        assert(entries@.take(i + 1).drop_last() =~= entries@.take(i as int));
        assert(entries@.take(i + 1).last() == entries@[i as int]);
        if entry_matches(q, &entries[i]) {
            out.push(copy_entry(&entries[i]));
        }
        i = i + 1;
    }
    assert(entries@.take(entries@.len() as int) =~= entries@);
    keep_tail(out, q.tail)
}

/// The entries of `unit` among `entries`, in order.
pub open spec fn of_unit(entries: Seq<JournalEntry>, unit: Seq<char>) -> Seq<JournalEntry>
    decreases entries.len(),
{
    if entries.len() == 0 {
        Seq::empty()
    } else {
        let r = of_unit(entries.drop_last(), unit);
        if entries.last().unit@ == unit { r.push(entries.last()) } else { r }
    }
}

/// The entries of `unit`, the last `tail` of them when `tail` is not 0.
pub fn read_unit_logs(entries: &Vec<JournalEntry>, unit: &str, tail: usize) -> (r: Vec<JournalEntry>)
    ensures
        r@ == last_n(of_unit(entries@, unit@), tail as nat),
{
    let mut out: Vec<JournalEntry> = Vec::new();
    let mut i: usize = 0;
    assert(entries@.take(0) =~= Seq::<JournalEntry>::empty());
    while i < entries.len()
        invariant
            i <= entries@.len(),
            out@ == of_unit(entries@.take(i as int), unit@),
        decreases entries@.len() - i,
    {
        assert(entries@.take(i + 1).drop_last() =~= entries@.take(i as int));
        assert(entries@.take(i + 1).last() == entries@[i as int]);
        if str_eq(entries[i].unit.as_str(), unit) {
            out.push(copy_entry(&entries[i]));
        }
        i = i + 1;
    }
    assert(entries@.take(entries@.len() as int) =~= entries@);
    keep_tail(out, tail)
}

/// The last `tail` lines of a service log; all when `tail` is 0.
pub fn tail_lines(lines: Vec<String>, tail: usize) -> (r: Vec<String>)
    ensures
        r@ == last_n(lines@, tail as nat),
{
    keep_tail(lines, tail)
}

/// Where the journal lives: `FORGE_JOURNAL` when set, `/var/log/forge/journal.jsonl`
/// when that directory is writable, `/run/forge/journal.jsonl` otherwise.
pub fn journal_path_display(env_value: Option<&str>, var_log_writable: bool) -> (r: String)
    ensures
        r@ == match env_value {
            Some(v) => v@,
            None => if var_log_writable { "/var/log/forge/journal.jsonl"@ } else { "/run/forge/journal.jsonl"@ },
        },
{
    match env_value {
        Some(v) => str_to_string(v),
        None => if var_log_writable {
            "/var/log/forge/journal.jsonl".to_string()
        } else {
            "/run/forge/journal.jsonl".to_string()
        },
    }
}

} // verus!
