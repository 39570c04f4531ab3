//! Syscall dispatch: the numbering of the kernel's system calls and the
//! decision which handler a trapped number selects. The handlers themselves
//! copy user memory and touch the mounted filesystem, which happens outside
//! the crate; an unknown number answers with the all-ones error value, as
//! the dispatcher does.

use vstd::prelude::*;

verus! {

pub const SYS_OPEN: u64 = 0;

pub const SYS_READ: u64 = 1;

pub const SYS_WRITE: u64 = 2;

pub const SYS_CLOSE: u64 = 3;

pub const SYS_UNLINK: u64 = 4;

/// The system calls of the dispatch table, in table order.
#[derive(Clone, Copy, PartialEq, Eq, Structural, Debug)]
pub enum Syscall {
    Open,
    Read,
    Write,
    Close,
    Unlink,
}

/// Which handler a call number selects.
pub open spec fn spec_syscall_of(num: u64) -> Option<Syscall> {
    if num == SYS_OPEN {
        Some(Syscall::Open)
    } else if num == SYS_READ {
        Some(Syscall::Read)
    } else if num == SYS_WRITE {
        Some(Syscall::Write)
    } else if num == SYS_CLOSE {
        Some(Syscall::Close)
    } else if num == SYS_UNLINK {
        Some(Syscall::Unlink)
    } else {
        None
    }
}

/// Identify the handler a trapped call selects, with its three arguments
/// passed through; a number past the table answers nothing, which the trap
/// path reports as the all-ones error value.
pub fn syscall_identifier(num: u64, a0: u64, a1: u64, a2: u64) -> (r: Option<(Syscall, u64, u64, u64)>)
    ensures
        r is Some <==> num < 5,
        r matches Some((call, b0, b1, b2)) ==> Some(call) == spec_syscall_of(num) && b0 == a0 && b1
            == a1 && b2 == a2,
{
    if num == 0 {
        Some((Syscall::Open, a0, a1, a2))
    } else if num == 1 {
        Some((Syscall::Read, a0, a1, a2))
    } else if num == 2 {
        Some((Syscall::Write, a0, a1, a2))
    } else if num == 3 {
        Some((Syscall::Close, a0, a1, a2))
    } else if num == 4 {
        Some((Syscall::Unlink, a0, a1, a2))
    } else {
        None
    }
}

/// Closing a file descriptor: the kernel keeps no descriptor state, so the
/// call always succeeds with zero.
pub fn sys_close(fd: u64, a1: u64, a2: u64) -> (r: u64)
    ensures
        r == 0,
{
    let _ = fd;
    let _ = a1;
    let _ = a2;
    0
}

} // verus!
