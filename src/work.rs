//! Work items delivered to threads.

use vstd::prelude::*;

verus! {

/// A unit of work that can be delivered to a thread of the process.
#[derive(Clone, Copy, Debug, PartialEq, Eq, Structural)]
pub enum Work {
    /// An incoming transaction; `oneway` transactions expect no reply.
    Transaction { debug_id: u64, oneway: bool },
    /// A death notification that fired for the registration with this cookie.
    DeadBinder { cookie: u64 },
    /// Confirmation that the death registration with this cookie was cleared.
    ClearDeathNotification { cookie: u64 },
    /// The owner of the node at this user pointer must learn of a reference count change.
    NodeRefsChanged { ptr: u64 },
    /// A bare return code for the thread that asked.
    ReturnCode { code: u32 },
}

impl Work {
    pub open spec fn spec_should_sync_wakeup(self) -> bool {
        match self {
            Work::Transaction { oneway, .. } => !oneway,
            _ => false,
        }
    }

    /// Whether waking a poller for this item should be a synchronous wakeup.
    pub fn should_sync_wakeup(&self) -> (r: bool)
        ensures
            r == self.spec_should_sync_wakeup(),
    {
        match self {
            Work::Transaction { oneway, .. } => !*oneway,
            _ => false,
        }
    }
}

} // verus!
