//! Waiting for a service's D-Bus name: the tools asked and what their replies mean.
use vstd::prelude::*;
use crate::text::{chars_of, concat, contains_seq, contains_str, decimal, str_to_string, u64_to_string};
use crate::wait_status::{exit_code, exited, signaled};

verus! {

/// `Path::is_file`: what it answers depends on the disk, so nothing is claimed of it.
#[verifier::external_body]
pub(crate) fn is_file(path: &str) -> (r: bool)
{
    std::path::Path::new(path).is_file()
}

/// `i` is the first position at which `present` holds.
pub open spec fn first_true(present: Seq<bool>, i: int) -> bool {
    &&& 0 <= i < present.len()
    &&& present[i]
    &&& forall|j: int| 0 <= j < i ==> !present[j]
}

/// The first position at which `present` holds, if any; `present` holds one answer
/// per candidate.
pub fn first_present(candidates: &Vec<&str>, present: &Vec<bool>) -> (r: Option<usize>)
    requires
        present@.len() == candidates@.len(),
    ensures
        r matches Some(i) ==> first_true(present@, i as int),
        r is None ==> forall|j: int| 0 <= j < present@.len() ==> !present@[j],
{
    let mut i: usize = 0;
    while i < present.len()
        invariant
            i <= present@.len(),
            forall|j: int| 0 <= j < i ==> !present@[j],
        decreases present@.len() - i,
    {
        if present[i] {
            return Some(i);
        }
        i = i + 1;
    }
    None
}

/// An optional string by its view.
pub open spec fn opt_text(r: Option<String>) -> Option<Seq<char>> {
    match r {
        Some(s) => Some(s@),
        None => None,
    }
}

/// The texts of `v`.
pub open spec fn texts(v: Seq<&str>) -> Seq<Seq<char>> {
    v.map_values(|s: &str| s@)
}

/// `r` is the tool picked among `candidates` when the disk answered `present` (one
/// answer per candidate): the first candidate that is a file, or none.
pub open spec fn tool_choice(candidates: Seq<Seq<char>>, present: Seq<bool>, r: Option<Seq<char>>) -> bool {
    &&& present.len() == candidates.len()
    &&& ((forall|j: int| 0 <= j < present.len() ==> !present[j]) ==> r is None)
    &&& forall|i: int| #[trigger] first_true(present, i) ==> r == Some(candidates[i])
}

/// The first of `candidates` that is a file, as the disk answered when asked about
/// each of them.
pub fn resolve_tool(candidates: &Vec<&str>) -> (r: Option<String>)
    ensures
        r matches Some(p) ==> exists|i: int| 0 <= i < candidates@.len() && (#[trigger] candidates@[i])@ == p@,
        exists|present: Seq<bool>| #[trigger] tool_choice(texts(candidates@), present, opt_text(r)),
{
    let mut present: Vec<bool> = Vec::new();
    let mut k: usize = 0;
    while k < candidates.len()
        invariant
            k <= candidates@.len(),
            present@.len() == k,
        decreases candidates@.len() - k,
    {
        present.push(is_file(candidates[k]));
        k = k + 1;
    }
    let ghost cv = texts(candidates@);
    let r = match first_present(candidates, &present) {
        Some(i) => {
            let p = str_to_string(candidates[i]);
            assert(candidates@[i as int]@ == p@);
            assert forall|j: int| #[trigger] first_true(present@, j) implies opt_text(Some(p)) == Some(cv[j]) by {
                if j < i {
                    assert(!present@[j]);
                } else if i < j {
                    assert(!present@[i as int]);
                }
            }
            Some(p)
        },
        None => None,
    };
    assert(tool_choice(cv, present@, opt_text(r)));
    r
}

/// A `NameHasOwner` reply of `dbus-send` says that the name is owned.
pub fn reply_says_owned(reply: &str) -> (r: bool)
    ensures
        r == contains_seq(reply@, "boolean true"@),
{
    let v = chars_of(reply);
    contains_str(v.as_slice(), "boolean true")
}

/// The low seven bits of a wait status: the signal that killed the child (`WTERMSIG`).
pub open spec fn term_signal(status: i32) -> i32 {
    status & 0x7f
}

/// `libc::WTERMSIG`, whose source is `status & 0x7f`.
#[verifier::external_body]
fn wtermsig(status: i32) -> (r: i32)
    ensures
        r == term_signal(status),
{
    libc::WTERMSIG(status)
}

/// How a child ended, for the log: its exit code, the signal that killed it, or
/// an abnormal exit.
pub open spec fn exit_detail_text(status: i32) -> Seq<char> {
    if exited(status) {
        "exit code "@ + decimal(exit_code(status) as nat)
    } else if signaled(status) {
        "signal "@ + decimal(term_signal(status) as nat)
    } else {
        "abnormal exit"@
    }
}

/// The text `exit_detail_text` gives for `status`.
pub fn exit_detail(status: i32) -> (r: String)
    ensures
        r@ == exit_detail_text(status),
{
    if crate::wait_status::child_exited(status) {
        let code = crate::wait_status::child_exit_code(status);
        let n = u64_to_string(code as u64);
        concat("exit code ", n.as_str())
    } else if crate::wait_status::child_signaled(status) {
        let sig = wtermsig(status);
        assert(0 <= sig) by (bit_vector)
            requires
                sig == status & 0x7f,
        ;
        let n = u64_to_string(sig as u64);
        concat("signal ", n.as_str())
    } else {
        "abnormal exit".to_string()
    }
}

} // verus!
