//! Classification of the packed status word that `waitpid` reports.
use vstd::prelude::*;

verus! {

/// ptrace event number reported when a traced thread creates a new thread.
pub const PTRACE_EVENT_CLONE: u32 = 3;

/// ptrace event number reported when a traced thread calls `execve`.
pub const PTRACE_EVENT_EXEC: u32 = 4;

/// What one `wait` call observed for one thread.
#[derive(Debug, Clone, Copy, PartialEq, Eq, Structural)]
pub enum WaitStatus {
    Exit(i32),
    Signal(i32),
    Stop(i32),
    Clone(i32),
    Exec,
    Continue,
}

/// The outcome of decoding a status word on its own: either a finished
/// classification, or a clone event whose new thread id must still be fetched
/// from the tracer.
#[derive(Debug, Clone, Copy, PartialEq, Eq, Structural)]
pub enum StatusClass {
    Ready(WaitStatus),
    CloneEvent,
}

/// The thread exited normally (low seven bits clear).
pub open spec fn exited(s: u32) -> bool {
    s & 0x7f == 0
}

/// Exit code of a normal exit.
pub open spec fn exit_code(s: u32) -> i32 {
    ((s >> 8u32) & 0xff) as i32
}

/// The thread was killed by a signal.
pub open spec fn signaled(s: u32) -> bool {
    s & 0x7f != 0 && s & 0x7f != 0x7f
}

/// Number of the terminating signal.
pub open spec fn term_signal(s: u32) -> i32 {
    (s & 0x7f) as i32
}

/// The thread is stopped (low byte is 0x7f).
pub open spec fn stopped(s: u32) -> bool {
    s & 0xff == 0x7f
}

/// Number of the stopping signal.
pub open spec fn stop_signal(s: u32) -> i32 {
    ((s >> 8u32) & 0xff) as i32
}

/// ptrace event code carried in the upper sixteen bits.
pub open spec fn event_code(s: u32) -> u32 {
    (s >> 16u32) & 0xffff
}

/// The thread was resumed by `SIGCONT`.
pub open spec fn continued(s: u32) -> bool {
    s == 0xffff
}

/// Decodes a raw `waitpid` status. Checks are made in this order: normal
/// exit, death by signal, stop (clone event, exec event, plain stop), then
/// continuation. A word that matches none of them yields `None`.
pub fn classify_status(status: i32) -> (r: Option<StatusClass>)
    ensures
        exited(status as u32) ==> r == Some(StatusClass::Ready(WaitStatus::Exit(exit_code(status as u32)))),
        !exited(status as u32) && signaled(status as u32) ==> r == Some(
            StatusClass::Ready(WaitStatus::Signal(term_signal(status as u32))),
        ),
        !exited(status as u32) && !signaled(status as u32) && stopped(status as u32) ==> r == (
        if event_code(status as u32) == PTRACE_EVENT_CLONE {
            Some(StatusClass::CloneEvent)
        } else if event_code(status as u32) == PTRACE_EVENT_EXEC {
            Some(StatusClass::Ready(WaitStatus::Exec))
        } else {
            Some(StatusClass::Ready(WaitStatus::Stop(stop_signal(status as u32))))
        }),
        !exited(status as u32) && !signaled(status as u32) && !stopped(status as u32) ==> r == (
        if continued(status as u32) {
            Some(StatusClass::Ready(WaitStatus::Continue))
        } else {
            None
        }),
{
    let s = status as u32;
    if s & 0x7f == 0 {
        return Some(StatusClass::Ready(WaitStatus::Exit(((s >> 8) & 0xff) as i32)));
    }
    if s & 0x7f != 0x7f {
        return Some(StatusClass::Ready(WaitStatus::Signal((s & 0x7f) as i32)));
    }
    if s & 0xff == 0x7f {
        let extra = (s >> 16) & 0xffff;
        if extra == PTRACE_EVENT_CLONE {
            return Some(StatusClass::CloneEvent);
        } else if extra == PTRACE_EVENT_EXEC {
            return Some(StatusClass::Ready(WaitStatus::Exec));
        } else {
            return Some(StatusClass::Ready(WaitStatus::Stop(((s >> 8) & 0xff) as i32)));
        }
    }
    if s == 0xffff {
        return Some(StatusClass::Ready(WaitStatus::Continue));
    }
    None
}

/// Completes a classification once the tracer has been asked for the new
/// thread id of a clone event. `None` for a clone event means the tracer
/// could not answer, which leaves the attachment broken.
pub fn finish_status(class: StatusClass, new_tid: Option<i32>) -> (r: Option<WaitStatus>)
    ensures
        class matches StatusClass::Ready(w) ==> r == Some(w),
        class is CloneEvent ==> r == (match new_tid {
            Some(t) => Some(WaitStatus::Clone(t)),
            None => None,
        }),
{
    match class {
        StatusClass::Ready(w) => Some(w),
        StatusClass::CloneEvent => match new_tid {
            Some(t) => Some(WaitStatus::Clone(t)),
            None => None,
        },
    }
}

} // verus!
