//! Error codes reported to user space.

use vstd::prelude::*;

verus! {

/// The error codes that the process layer reports to user space.
#[derive(Clone, Copy, Debug, PartialEq, Eq, Structural)]
pub enum Errno {
    /// Bad argument, wrong caller, unknown command or cookie mismatch.
    Inval,
    /// The caller lacks the privilege the operation needs.
    Perm,
    /// No entry under the given handle.
    NoEnt,
    /// The process died before a new reference could be recorded.
    Srch,
    /// Transactions were still pending when a freeze completed.
    Again,
    /// A freeze wait was interrupted by a signal.
    RestartSys,
    /// Out of memory, or out of handle values.
    NoMem,
    /// No free region of the requested size is left in the buffer arena.
    NoSpc,
    /// The context manager slot is already taken.
    Busy,
    /// The target process (or thread) is dead.
    DeadReply,
}

} // verus!
