use vstd::prelude::*;

verus! {

/// Relies on `libc::WIFEXITED`: the low seven bits are zero.
pub assume_specification[ libc::WIFEXITED ](status: libc::c_int) -> (r: bool)
    ensures
        r == ((status & 0x7f) == 0),
;

/// Relies on `libc::WIFSIGNALED`: the low seven bits are neither 0 nor 0x7f.
pub assume_specification[ libc::WIFSIGNALED ](status: libc::c_int) -> (r: bool)
    ensures
        r == ((status & 0x7f) != 0 && (status & 0x7f) != 0x7f),
;

/// Relies on `libc::WIFSTOPPED`: the low byte is 0x7f.
pub assume_specification[ libc::WIFSTOPPED ](status: libc::c_int) -> (r: bool)
    ensures
        r == ((status & 0xff) == 0x7f),
;

/// Relies on `libc::WIFCONTINUED`: the status is 0xffff.
pub assume_specification[ libc::WIFCONTINUED ](status: libc::c_int) -> (r: bool)
    ensures
        r == (status == 0xffff),
;

/// Relies on `libc::WEXITSTATUS`: the second byte.
pub assume_specification[ libc::WEXITSTATUS ](status: libc::c_int) -> (r: libc::c_int)
    ensures
        r == ((status >> 8) & 0xff),
;

/// Relies on `libc::WTERMSIG`: the low seven bits.
pub assume_specification[ libc::WTERMSIG ](status: libc::c_int) -> (r: libc::c_int)
    ensures
        r == (status & 0x7f),
;

/// What a status reported by the wait for a child says happened to it.
#[derive(Clone, Copy, Debug, PartialEq, Eq, Structural)]
pub enum WaitStatus {
    Exited(i32),
    Signaled(i32),
    Stopped,
    Continued,
    Other,
}

/// The change that `status` reports, tested in this order: exit, death by a
/// signal, stop, continue.
pub open spec fn status_kind(status: i32) -> WaitStatus {
    if (status & 0x7f) == 0 {
        WaitStatus::Exited((status >> 8) & 0xff)
    } else if (status & 0x7f) != 0x7f {
        WaitStatus::Signaled(status & 0x7f)
    } else if (status & 0xff) == 0x7f {
        WaitStatus::Stopped
    } else if status == 0xffff {
        WaitStatus::Continued
    } else {
        WaitStatus::Other
    }
}

pub fn decode_status(status: i32) -> (r: WaitStatus)
    ensures
        r == status_kind(status),
{
    if libc::WIFEXITED(status) {
        WaitStatus::Exited(libc::WEXITSTATUS(status))
    } else if libc::WIFSIGNALED(status) {
        WaitStatus::Signaled(libc::WTERMSIG(status))
    } else if libc::WIFSTOPPED(status) {
        WaitStatus::Stopped
    } else if libc::WIFCONTINUED(status) {
        WaitStatus::Continued
    } else {
        WaitStatus::Other
    }
}

} // verus!
