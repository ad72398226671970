//! What a process knows of one of its threads.

use vstd::prelude::*;
use crate::work::Work;

verus! {

/// What the process knows of one of its threads.
pub struct Thread {
    pub id: i32,
    /// The thread is in its looper state, servicing Binder work.
    pub looper: bool,
    /// The thread has been released and accepts no more work.
    pub dead: bool,
    /// The thread is in the middle of a transaction.
    pub has_transaction: bool,
    /// Work delivered to this thread and not yet read.
    pub todo: Vec<Work>,
}

impl Thread {
    pub fn new(id: i32) -> (r: Thread)
        ensures
            r.id == id,
            !r.looper,
            !r.dead,
            !r.has_transaction,
            r.todo@ == Seq::<Work>::empty(),
    {
        Thread { id, looper: false, dead: false, has_transaction: false, todo: Vec::new() }
    }

    /// Hands `work` to the thread; a dead thread gives it back.
    pub fn push_work(&mut self, work: Work) -> (r: Result<(), Work>)
        ensures
            final(self).id == old(self).id,
            final(self).looper == old(self).looper,
            final(self).dead == old(self).dead,
            final(self).has_transaction == old(self).has_transaction,
            old(self).dead ==> r == Err::<(), Work>(work) && final(self).todo@ == old(self).todo@,
            !old(self).dead ==> r == Ok::<(), Work>(()) && final(self).todo@ == old(self).todo@.push(
                work,
            ),
    {
        if self.dead {
            Err(work)
        } else {
            self.todo.push(work);
            Ok(())
        }
    }

    /// Hands `work` to the thread only while it is looping; returns whether it did.
    pub fn push_work_if_looper(&mut self, work: Work) -> (r: bool)
        ensures
            final(self).id == old(self).id,
            final(self).looper == old(self).looper,
            final(self).dead == old(self).dead,
            final(self).has_transaction == old(self).has_transaction,
            r == (old(self).looper && !old(self).dead),
            r ==> final(self).todo@ == old(self).todo@.push(work),
            !r ==> final(self).todo@ == old(self).todo@,
    {
        if self.looper && !self.dead {
            self.todo.push(work);
            true
        } else {
            false
        }
    }
}

} // verus!
