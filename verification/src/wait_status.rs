//! Decoding of the status `waitpid` reports for a child.
use vstd::prelude::*;

verus! {

/// The child exited normally (`WIFEXITED`).
pub open spec fn exited(status: i32) -> bool {
    (status & 0x7f) == 0
}

/// The exit code of a child that exited normally (`WEXITSTATUS`).
pub open spec fn exit_code(status: i32) -> i32 {
    (status >> 8) & 0xff
}

/// The child was killed by a signal (`WIFSIGNALED`): the low seven bits are
/// neither 0 (exited) nor 0x7f (stopped).
pub open spec fn signaled(status: i32) -> bool {
    (status & 0x7f) != 0 && (status & 0x7f) != 0x7f
}

/// The child counts as failed: it exited with a non-zero code or was killed.
pub open spec fn exit_failed(status: i32) -> bool {
    (exited(status) && exit_code(status) != 0) || signaled(status)
}

/// `libc::WIFEXITED`, whose source is `(status & 0x7f) == 0`.
#[verifier::external_body]
fn wifexited(status: i32) -> (r: bool)
    ensures
        r == exited(status),
{
    libc::WIFEXITED(status)
}

/// `libc::WEXITSTATUS`, whose source is `(status >> 8) & 0xff`.
#[verifier::external_body]
fn wexitstatus(status: i32) -> (r: i32)
    ensures
        r == exit_code(status),
{
    libc::WEXITSTATUS(status)
}

/// `libc::WIFSIGNALED`, whose source is `((status & 0x7f) + 1) as i8 >= 2`: true
/// exactly when the low seven bits are neither 0 nor 0x7f.
#[verifier::external_body]
fn wifsignaled(status: i32) -> (r: bool)
    ensures
        r == signaled(status),
{
    libc::WIFSIGNALED(status)
}

/// Whether a child that ended with `status` failed.
pub fn child_failed(status: i32) -> (r: bool)
    ensures
        r == exit_failed(status),
{
    (wifexited(status) && wexitstatus(status) != 0) || wifsignaled(status)
}


/// Whether the child exited normally.
pub fn child_exited(status: i32) -> (r: bool)
    ensures
        r == exited(status),
{
    wifexited(status)
}

/// The exit code of a child that exited normally.
pub fn child_exit_code(status: i32) -> (r: i32)
    ensures
        r == exit_code(status),
        0 <= r <= 255,
{
    let c = wexitstatus(status);
    assert(0 <= ((status >> 8) & 0xff) <= 255) by (bit_vector);
    c
}

/// Whether a signal killed the child.
pub fn child_signaled(status: i32) -> (r: bool)
    ensures
        r == signaled(status),
{
    wifsignaled(status)
}

} // verus!
