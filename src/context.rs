//! A Binder context: the manager slot and the registered processes.

use vstd::prelude::*;
use crate::errors::Errno;
use crate::node_ref::NodeRef;

verus! {

/// The node that serves as context manager, and the process that owns it.
#[derive(Clone, Copy, Debug, PartialEq, Eq, Structural)]
pub struct ManagerNode {
    pub node: u64,
    pub owner: u64,
}

/// A manager uid is on record and differs from `euid`.
pub open spec fn uid_conflict(recorded: Option<u32>, euid: u32) -> bool {
    match recorded {
        Some(u) => u != euid,
        None => false,
    }
}

/// A Binder context: its manager slot and the processes that opened it.
pub struct Context {
    pub manager: Option<ManagerNode>,
    /// The effective uid that first became manager; later managers must match it.
    pub manager_uid: Option<u32>,
    /// Ids of the processes registered with the context.
    pub procs: Vec<u64>,
}

impl Context {
    pub fn new() -> (r: Context)
        ensures
            r.manager is None,
            r.manager_uid is None,
            r.procs@ == Seq::<u64>::empty(),
    {
        Context { manager: None, manager_uid: None, procs: Vec::new() }
    }

    pub fn register_process(&mut self, id: u64)
        ensures
            final(self).procs@ == old(self).procs@.push(id),
            final(self).manager == old(self).manager,
            final(self).manager_uid == old(self).manager_uid,
    {
        self.procs.push(id);
    }

    /// Removes every registration of the process `id`.
    pub fn deregister_process(&mut self, id: u64)
        ensures
            final(self).procs@ == old(self).procs@.filter(|p: u64| p != id),
            final(self).manager == old(self).manager,
            final(self).manager_uid == old(self).manager_uid,
    {
        let mut kept: Vec<u64> = Vec::new();
        let mut i: usize = 0;
        while i < self.procs.len()
            invariant
                0 <= i <= self.procs@.len(),
                kept@ == self.procs@.take(i as int).filter(|p: u64| p != id),
            decreases self.procs@.len() - i,
        {
            let p = self.procs[i];
            proof {
                reveal_with_fuel(Seq::filter, 1);
                assert(self.procs@.take(i + 1).drop_last() =~= self.procs@.take(i as int));
            }
            if p != id {
                kept.push(p);
            }
            i = i + 1;
        }
        assert(self.procs@.take(self.procs@.len() as int) =~= self.procs@);
        self.procs = kept;
    }

    /// Makes `node_ref` the manager; `Busy` if one is set, `Perm` if the
    /// caller's uid differs from the first manager's.
    pub fn set_manager_node(&mut self, node_ref: NodeRef, owner: u64, euid: u32) -> (r: Result<(), Errno>)
        ensures
            final(self).procs@ == old(self).procs@,
            old(self).manager is Some ==> r == Err::<(), Errno>(Errno::Busy) && final(self).manager == old(self).manager
                && final(self).manager_uid == old(self).manager_uid,
            old(self).manager is None && uid_conflict(old(self).manager_uid, euid) ==> r == Err::<(), Errno>(Errno::Perm)
                && final(self).manager == old(self).manager && final(self).manager_uid == old(self).manager_uid,
            old(self).manager is None && !uid_conflict(old(self).manager_uid, euid) ==> r == Ok::<(), Errno>(())
                && final(self).manager == Some(ManagerNode { node: node_ref.node, owner })
                && final(self).manager_uid == Some(euid),
    {
        if self.manager.is_some() {
            return Err(Errno::Busy);
        }
        match self.manager_uid {
            Some(u) => {
                if u != euid {
                    return Err(Errno::Perm);
                }
            },
            None => {},
        }
        self.manager = Some(ManagerNode { node: node_ref.node, owner });
        self.manager_uid = Some(euid);
        Ok(())
    }

    pub fn unset_manager_node(&mut self)
        ensures
            final(self).manager is None,
            final(self).manager_uid == old(self).manager_uid,
            final(self).procs@ == old(self).procs@,
    {
        self.manager = None;
    }

    /// A new single count on the manager node, with the manager's owner;
    /// `DeadReply` when no manager is set.
    pub fn get_manager_node(&self, strong: bool) -> (r: Result<(NodeRef, u64), Errno>)
        ensures
            match self.manager {
                Some(m) => r == Ok::<(NodeRef, u64), Errno>((NodeRef::spec_single(m.node, strong), m.owner)),
                None => r == Err::<(NodeRef, u64), Errno>(Errno::DeadReply),
            },
    {
        match self.manager {
            Some(m) => Ok((NodeRef::new(m.node, strong), m.owner)),
            None => Err(Errno::DeadReply),
        }
    }
}

} // verus!
