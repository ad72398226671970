//! A process's use of a Binder context: its work queue, owned nodes,
//! handles and death notifications.

use vstd::prelude::*;
use crate::context::{uid_conflict, Context, ManagerNode};
use crate::errors::Errno;
use crate::inner::{node_count_changed, push_outcome, threads_same_except, Delivery, ProcessInner};
use crate::node::{DeathSubscriber, Node, RefLink};
use crate::node_ref::{NodeDeath, NodeRef};
use crate::node_refs::{
    clear_death_outcome, insert_outcome, request_death_outcome, update_outcome, DeathRequest,
    NodeRefInfo, ProcessNodeRefs,
};
use crate::lifecycle::node_ptrs;
use crate::thread::Thread;
use crate::work::Work;

verus! {

broadcast use {vstd::std_specs::btree::group_btree_axioms, vstd::laws_cmp::group_laws_cmp};

/// The user pointer of the node that `set_as_manager` uses.
pub open spec fn manager_ptr(info: Option<(u64, u64, u32)>) -> u64 {
    match info {
        Some(t) => t.0,
        None => 0,
    }
}

/// The cookie of the node that `set_as_manager` uses.
pub open spec fn manager_cookie(info: Option<(u64, u64, u32)>) -> u64 {
    match info {
        Some(t) => t.1,
        None => 0,
    }
}

/// What user space learns of one node of the process.
#[derive(Clone, Copy, Debug, PartialEq, Eq, Structural)]
pub struct NodeDebugInfo {
    pub ptr: u64,
    pub cookie: u64,
    pub has_strong_ref: u32,
    pub has_weak_ref: u32,
}

impl NodeDebugInfo {
    pub open spec fn empty() -> NodeDebugInfo {
        NodeDebugInfo { ptr: 0, cookie: 0, has_strong_ref: 0, has_weak_ref: 0 }
    }

    pub open spec fn of(n: Node) -> NodeDebugInfo {
        NodeDebugInfo {
            ptr: n.ptr,
            cookie: n.cookie,
            has_strong_ref: if n.strong > 0 { 1 } else { 0 },
            has_weak_ref: if n.weak > 0 { 1 } else { 0 },
        }
    }
}

/// A manager's question about the node behind a handle.
#[derive(Clone, Copy, Debug, PartialEq, Eq, Structural)]
pub struct NodeInfoForRef {
    pub handle: u32,
    pub strong_count: u32,
    pub weak_count: u32,
    pub reserved1: u32,
    pub reserved2: u32,
    pub reserved3: u32,
}

impl NodeInfoForRef {
    /// A field that the caller must leave zero is set.
    pub open spec fn has_nonzero_fields(self) -> bool {
        self.strong_count != 0 || self.weak_count != 0 || self.reserved1 != 0 || self.reserved2 != 0
            || self.reserved3 != 0
    }
}

/// The cookie of the death registration that went with a dropped reference.
pub open spec fn dropped_death(r: Result<Option<NodeRefInfo>, Errno>) -> Option<u64> {
    match r {
        Ok(Some(info)) => match info.death {
            Some(d) => Some(d.cookie),
            None => None,
        },
        _ => None,
    }
}

/// `n` is `o` without its first notification with `cookie`, if it has one.
pub open spec fn pulled(o: Seq<NodeDeath>, n: Seq<NodeDeath>, cookie: u64) -> bool {
    if exists|k: int| 0 <= k < o.len() && o[k].cookie == cookie {
        exists|i: int|
            {
                &&& 0 <= i < o.len()
                &&& #[trigger] o[i].cookie == cookie
                &&& forall|k: int| 0 <= k < i ==> o[k].cookie != cookie
                &&& n =~= o.remove(i)
            }
    } else {
        n =~= o
    }
}

/// Thread `tid` got `work` if it exists and is looping; no other thread changed.
pub open spec fn pushed_if_looper(a: Map<i32, Thread>, b: Map<i32, Thread>, tid: i32, work: Work) -> bool {
    if a.contains_key(tid) && a[tid].looper && !a[tid].dead {
        &&& threads_same_except(a, b, tid)
        &&& b[tid].todo@ == a[tid].todo@.push(work)
        &&& b[tid].id == a[tid].id
        &&& b[tid].looper == a[tid].looper
        &&& b[tid].dead == a[tid].dead
        &&& b[tid].has_transaction == a[tid].has_transaction
    } else {
        b =~= a
    }
}

/// What `set_as_manager` does, from process `o` and context `oc` to
/// process `n` and context `nc`.
pub open spec fn manager_outcome(
    o: &Process,
    n: &Process,
    oc: &Context,
    nc: &Context,
    info: Option<(u64, u64, u32)>,
    new_global_id: u64,
    euid: u32,
    r: Result<(), Errno>,
) -> bool {
    let ptr = manager_ptr(info);
    let cookie = manager_cookie(info);
    let nodes = o.inner.nodes@;
    if nodes.contains_key(ptr) && nodes[ptr].cookie != cookie {
        &&& r == Err::<(), Errno>(Errno::Inval)
        &&& nc.manager == oc.manager
        &&& n.inner.is_manager == o.inner.is_manager
    } else if !nodes.contains_key(ptr) && o.inner.is_dead {
        &&& r == Err::<(), Errno>(Errno::Srch)
        &&& nc.manager == oc.manager
        &&& n.inner.is_manager == o.inner.is_manager
    } else if oc.manager is Some {
        &&& r == Err::<(), Errno>(Errno::Busy)
        &&& nc.manager == oc.manager
        &&& n.inner.is_manager == o.inner.is_manager
    } else if uid_conflict(oc.manager_uid, euid) {
        &&& r == Err::<(), Errno>(Errno::Perm)
        &&& nc.manager == oc.manager
        &&& n.inner.is_manager == o.inner.is_manager
    } else {
        let gid = if nodes.contains_key(ptr) {
            nodes[ptr].global_id
        } else {
            new_global_id
        };
        &&& r == Ok::<(), Errno>(())
        &&& n.inner.is_manager
        &&& nc.manager == Some(ManagerNode { node: gid, owner: o.id })
        &&& n.inner.nodes@[ptr].global_id == gid
        &&& n.inner.nodes@[ptr].cookie == cookie
        &&& n.inner.nodes@[ptr].flags == if nodes.contains_key(ptr) {
            nodes[ptr].flags
        } else {
            manager_flags(info)
        }
    }
}

/// The flags of the node that `set_as_manager` creates.
pub open spec fn manager_flags(info: Option<(u64, u64, u32)>) -> u32 {
    match info {
        Some(t) => t.2,
        None => 0,
    }
}

/// `b` is the node `a`, but for its refs list.
pub open spec fn node_same_but_refs(a: Node, b: Node) -> bool {
    &&& b.deaths@ == a.deaths@
    &&& b.ptr == a.ptr
    &&& b.cookie == a.cookie
    &&& b.flags == a.flags
    &&& b.global_id == a.global_id
    &&& b.strong == a.strong
    &&& b.weak == a.weak
}

/// `b` is the node `a`, but for its death registrations.
pub open spec fn node_same_but_deaths(a: Node, b: Node) -> bool {
    &&& b.refs@ == a.refs@
    &&& b.ptr == a.ptr
    &&& b.cookie == a.cookie
    &&& b.flags == a.flags
    &&& b.global_id == a.global_id
    &&& b.strong == a.strong
    &&& b.weak == a.weak
}

/// `b` is the node `a` without the links and death registrations of process `id`.
pub open spec fn node_forgot(a: Node, b: Node, id: u64) -> bool {
    &&& b.refs@ == a.refs@.filter(|l: RefLink| l.process != id)
    &&& b.deaths@ == a.deaths@.filter(|d: DeathSubscriber| d.process != id)
    &&& b.ptr == a.ptr
    &&& b.cookie == a.cookie
    &&& b.flags == a.flags
    &&& b.global_id == a.global_id
    &&& b.strong == a.strong
    &&& b.weak == a.weak
}

/// What `get_work_or_register` did.
#[derive(Clone, Copy, Debug, PartialEq, Eq, Structural)]
pub enum WorkOrRegistration {
    /// The first item of the process queue, now taken off it.
    Work(Work),
    /// The queue was empty: the thread now waits among the ready threads.
    Registered,
}

/// One process's use of a Binder context.
pub struct Process {
    /// Identity of this process object.
    pub id: u64,
    /// Pid of the group leader that opened the device.
    pub pid: i32,
    pub inner: ProcessInner,
    pub node_refs: ProcessNodeRefs,
}

impl Process {
    pub open spec fn wf(&self) -> bool {
        self.inner.wf() && self.node_refs.wf()
    }

    /// Once dead, a process stays dead and gains no node, no handle and no
    /// queued work: what is left of its queue is the tail of the old queue.
    pub open spec fn dead_stays_dead(old: &Process, new: &Process) -> bool {
        old.inner.is_dead ==> {
            &&& new.inner.is_dead
            &&& new.node_refs.by_handle@.dom().subset_of(old.node_refs.by_handle@.dom())
            &&& new.inner.nodes@.dom().subset_of(old.inner.nodes@.dom())
            &&& new.inner.work@.len() <= old.inner.work@.len()
            &&& new.inner.work@ =~= old.inner.work@.subrange(
                old.inner.work@.len() - new.inner.work@.len(),
                old.inner.work@.len() as int,
            )
        }
    }

    /// A fresh process, registered with `ctx`.
    pub fn new(ctx: &mut Context, id: u64, pid: i32) -> (r: Process)
        ensures
            r.wf(),
            r.id == id,
            r.pid == pid,
            r.inner.is_fresh(),
            r.node_refs.by_handle@ == Map::<u32, NodeRefInfo>::empty(),
            r.node_refs.by_node@ == Map::<u64, u32>::empty(),
            final(ctx).procs@ == old(ctx).procs@.push(id),
            final(ctx).manager == old(ctx).manager,
            final(ctx).manager_uid == old(ctx).manager_uid,
    {
        let p = Process { id, pid, inner: ProcessInner::new(), node_refs: ProcessNodeRefs::new() };
        ctx.register_process(id);
        p
    }

    /// Takes the first item off the process queue.
    pub fn get_work(&mut self) -> (r: Option<Work>)
        requires
            old(self).wf(),
        ensures
            final(self).wf(),
            final(self).id == old(self).id,
            final(self).pid == old(self).pid,
            Process::dead_stays_dead(old(self), final(self)),
            old(self).inner.work@.len() == 0 ==> r is None && final(self).inner.work@ == old(self).inner.work@,
            old(self).inner.work@.len() > 0 ==> r == Some(old(self).inner.work@[0])
                && final(self).inner.work@ == old(self).inner.work@.drop_first(),
            final(self).inner.is_dead == old(self).inner.is_dead,
            final(self).inner.threads@ == old(self).inner.threads@,
            final(self).inner.ready_threads@ == old(self).inner.ready_threads@,
            final(self).inner.nodes@ == old(self).inner.nodes@,
            final(self).inner.mapping == old(self).inner.mapping,
            final(self).node_refs.by_handle@ == old(self).node_refs.by_handle@,
            final(self).node_refs.by_node@ == old(self).node_refs.by_node@,
    {
        if self.inner.work.len() == 0 {
            None
        } else {
            let w = self.inner.work.remove(0);
            assert(self.inner.work@ =~= old(self).inner.work@.drop_first());
            Some(w)
        }
    }

    /// Takes the first item off the process queue, or, when it is empty,
    /// puts thread `tid` at the front of the ready threads.
    pub fn get_work_or_register(&mut self, tid: i32) -> (r: WorkOrRegistration)
        requires
            old(self).wf(),
            old(self).inner.threads@.contains_key(tid),
        ensures
            final(self).wf(),
            Process::dead_stays_dead(old(self), final(self)),
            final(self).inner.threads@ == old(self).inner.threads@,
            old(self).inner.work@.len() > 0 ==> r == WorkOrRegistration::Work(old(self).inner.work@[0])
                && final(self).inner.work@ == old(self).inner.work@.drop_first()
                && final(self).inner.ready_threads@ == old(self).inner.ready_threads@,
            old(self).inner.work@.len() == 0 ==> r == WorkOrRegistration::Registered
                && final(self).inner.work@ == old(self).inner.work@
                && (old(self).inner.ready_threads@.contains(tid) ==> final(self).inner.ready_threads@ == old(self).inner.ready_threads@)
                && (!old(self).inner.ready_threads@.contains(tid) ==> final(self).inner.ready_threads@ == seq![tid] + old(self).inner.ready_threads@),
    {
        if self.inner.work.len() > 0 {
            let w = self.inner.work.remove(0);
            assert(self.inner.work@ =~= old(self).inner.work@.drop_first());
            WorkOrRegistration::Work(w)
        } else {
            {
                let mut i: usize = 0;
                while i < self.inner.ready_threads.len()
                    invariant
                        *self == *old(self),
                        self.wf(),
                        self.inner.work@.len() == 0,
                        0 <= i <= self.inner.ready_threads@.len(),
                        forall|k: int| 0 <= k < i ==> self.inner.ready_threads@[k] != tid,
                    decreases self.inner.ready_threads@.len() - i,
                {
                    if self.inner.ready_threads[i] == tid {
                        return WorkOrRegistration::Registered;
                    }
                    i = i + 1;
                }
                self.inner.ready_threads.insert(0, tid);
                proof {
                    assert(self.inner.ready_threads@ =~= seq![tid] + old(self).inner.ready_threads@);
                    assert forall|i: int| 0 <= i < self.inner.ready_threads@.len() implies self.inner.threads@.contains_key(
                        #[trigger] self.inner.ready_threads@[i],
                    ) by {
                        if i > 0 {
                            assert(self.inner.ready_threads@[i] == old(self).inner.ready_threads@[i - 1]);
                        }
                    }
                    assert forall|a: int, b: int| 0 <= a < b < self.inner.ready_threads@.len() implies
                        self.inner.ready_threads@[a] != self.inner.ready_threads@[b] by {
                        if a > 0 {
                            assert(self.inner.ready_threads@[a] == old(self).inner.ready_threads@[a - 1]);
                        }
                        assert(self.inner.ready_threads@[b] == old(self).inner.ready_threads@[b - 1]);
                    }
                }
                WorkOrRegistration::Registered
            }
        }
    }

    /// Takes thread `tid` off the ready threads, if it is there.
    pub fn unregister_ready(&mut self, tid: i32)
        requires
            old(self).wf(),
        ensures
            final(self).wf(),
            final(self).id == old(self).id,
            final(self).pid == old(self).pid,
            Process::dead_stays_dead(old(self), final(self)),
            !old(self).inner.ready_threads@.contains(tid) ==> final(self).inner.ready_threads@ == old(self).inner.ready_threads@,
            old(self).inner.ready_threads@.contains(tid) ==> exists|i: int|
                0 <= i < old(self).inner.ready_threads@.len() && old(self).inner.ready_threads@[i] == tid
                    && final(self).inner.ready_threads@ == old(self).inner.ready_threads@.remove(i),
            !final(self).inner.ready_threads@.contains(tid),
            final(self).inner.threads@ == old(self).inner.threads@,
            final(self).inner.work@ == old(self).inner.work@,
            final(self).inner.is_dead == old(self).inner.is_dead,
            final(self).inner.nodes@ == old(self).inner.nodes@,
            final(self).inner.mapping == old(self).inner.mapping,
            final(self).node_refs.by_handle@ == old(self).node_refs.by_handle@,
            final(self).node_refs.by_node@ == old(self).node_refs.by_node@,
    {
        let mut i: usize = 0;
        while i < self.inner.ready_threads.len()
            invariant
                *self == *old(self),
                self.wf(),
                0 <= i <= self.inner.ready_threads@.len(),
                forall|k: int| 0 <= k < i ==> self.inner.ready_threads@[k] != tid,
            decreases self.inner.ready_threads@.len() - i,
        {
            if self.inner.ready_threads[i] == tid {
                self.inner.ready_threads.remove(i);
                proof {
                    let o = old(self).inner.ready_threads@;
                    let n = self.inner.ready_threads@;
                    assert(self.inner.threads@ == old(self).inner.threads@);
                    assert(n =~= o.remove(i as int));
                    assert forall|k: int| 0 <= k < n.len() implies self.inner.threads@.contains_key(#[trigger] n[k]) by {
                        if k < i {
                            assert(n[k] == o[k]);
                            assert(old(self).inner.threads@.contains_key(o[k]));
                        } else {
                            assert(n[k] == o[k + 1]);
                            assert(old(self).inner.threads@.contains_key(o[k + 1]));
                        }
                    }
                    assert forall|a: int, b: int| 0 <= a < b < n.len() implies n[a] != n[b] by {
                        let a0 = if a < i { a } else { a + 1 };
                        let b0 = if b < i { b } else { b + 1 };
                        assert(n[a] == o[a0] && n[b] == o[b0]);
                        assert(o.no_duplicates());
                        assert(a0 != b0);
                    }
                    assert(!n.contains(tid)) by {
                        if n.contains(tid) {
                            let k = choose|k: int| 0 <= k < n.len() && n[k] == tid;
                            let k0 = if k < i { k } else { k + 1 };
                            assert(n[k] == o[k0]);
                        }
                    }
                }
                return;
            }
            i = i + 1;
        }
    }
    /// The id of the calling thread, creating its record on first use;
    /// `Inval` when the caller belongs to another process.
    pub fn get_current_thread(&mut self, caller_leader: i32, tid: i32) -> (r: Result<i32, Errno>)
        requires
            old(self).wf(),
        ensures
            final(self).wf(),
            final(self).id == old(self).id,
            final(self).pid == old(self).pid,
            Process::dead_stays_dead(old(self), final(self)),
            caller_leader != old(self).pid ==> r == Err::<i32, Errno>(Errno::Inval)
                && final(self).inner.threads@ == old(self).inner.threads@,
            caller_leader == old(self).pid ==> r == Ok::<i32, Errno>(tid)
                && final(self).inner.threads@.dom() == old(self).inner.threads@.dom().insert(tid)
                && (forall|t: i32| #[trigger] old(self).inner.threads@.contains_key(t) ==> final(self).inner.threads@[t] == old(self).inner.threads@[t])
                && (!old(self).inner.threads@.contains_key(tid) ==> {
                    let t = final(self).inner.threads@[tid];
                    !t.looper && !t.dead && !t.has_transaction && t.todo@ == Seq::<Work>::empty()
                }),
            final(self).inner.ready_threads@ == old(self).inner.ready_threads@,
            final(self).inner.work@ == old(self).inner.work@,
            final(self).inner.nodes@ == old(self).inner.nodes@,
            final(self).inner.is_manager == old(self).inner.is_manager,
            final(self).inner.is_dead == old(self).inner.is_dead,
            final(self).node_refs.by_handle@ == old(self).node_refs.by_handle@,
    {
        if caller_leader != self.pid {
            return Err(Errno::Inval);
        }
        if self.inner.threads.contains_key(&tid) {
            return Ok(tid);
        }
        self.inner.threads.insert(tid, Thread::new(tid));
        proof {
            assert(self.inner.threads@.dom() =~= old(self).inner.threads@.dom().insert(tid));
            assert forall|t: i32| #[trigger] self.inner.threads@.contains_key(t) implies self.inner.threads@[t].id == t by {
                if t != tid {
                    assert(old(self).inner.threads@.contains_key(t));
                }
            }
        }
        Ok(tid)
    }

    /// Delivers `work` to the process; a failed delivery drops the item.
    pub fn push_work(&mut self, work: Work) -> (r: Result<Delivery, Errno>)
        requires
            old(self).wf(),
        ensures
            final(self).wf(),
            final(self).id == old(self).id,
            final(self).pid == old(self).pid,
            Process::dead_stays_dead(old(self), final(self)),
            exists|res: Result<Delivery, (Errno, Work)>|
                {
                    &&& #[trigger] push_outcome(&old(self).inner, &final(self).inner, work, res)
                    &&& match res {
                        Ok(d) => r == Ok::<Delivery, Errno>(d),
                        Err((e, _)) => r == Err::<Delivery, Errno>(e),
                    }
                },
            final(self).inner.nodes@ == old(self).inner.nodes@,
            final(self).inner.is_dead == old(self).inner.is_dead,
            final(self).inner.mapping == old(self).inner.mapping,
            final(self).node_refs.by_handle@ == old(self).node_refs.by_handle@,
            final(self).node_refs.by_node@ == old(self).node_refs.by_node@,
    {
        let res = self.inner.push_work(work);
        match res {
            Ok(d) => Ok(d),
            Err((e, _w)) => Err(e),
        }
    }

    /// A reference on the node at `ptr` owned by this process, creating the
    /// node (under `new_global_id`) on first sight. `Inval` when a node at
    /// `ptr` exists with another cookie. A notification owed to the owner
    /// goes to thread `tid`.
    pub fn get_node(
        &mut self,
        ptr: u64,
        cookie: u64,
        flags: u32,
        strong: bool,
        tid: i32,
        new_global_id: u64,
    ) -> (r: Result<NodeRef, Errno>)
        requires
            old(self).wf(),
        ensures
            final(self).wf(),
            final(self).id == old(self).id,
            final(self).pid == old(self).pid,
            final(self).inner.is_dead == old(self).inner.is_dead,
            final(self).inner.is_manager == old(self).inner.is_manager,
            final(self).inner.work@ == old(self).inner.work@,
            final(self).inner.mapping == old(self).inner.mapping,
            final(self).inner.ready_threads@ == old(self).inner.ready_threads@,
            final(self).inner.threads@.dom() == old(self).inner.threads@.dom(),
            final(self).node_refs.by_handle@ == old(self).node_refs.by_handle@,
            final(self).node_refs.by_node@ == old(self).node_refs.by_node@,
            old(self).inner.nodes@.contains_key(ptr) && old(self).inner.nodes@[ptr].cookie != cookie ==> r
                == Err::<NodeRef, Errno>(Errno::Inval) && final(self).inner.nodes@ == old(self).inner.nodes@,
            old(self).inner.nodes@.contains_key(ptr) && old(self).inner.nodes@[ptr].cookie == cookie ==> {
                &&& r == Ok::<NodeRef, Errno>(NodeRef::spec_single(old(self).inner.nodes@[ptr].global_id, strong))
                &&& final(self).inner.nodes@.dom() == old(self).inner.nodes@.dom()
                &&& node_count_changed(old(self).inner.nodes@[ptr], final(self).inner.nodes@[ptr], true, strong, 1)
            },
            Process::dead_stays_dead(old(self), final(self)),
            !old(self).inner.nodes@.contains_key(ptr) && old(self).inner.is_dead ==> r == Err::<NodeRef, Errno>(Errno::Srch)
                && final(self).inner.nodes@ == old(self).inner.nodes@,
            !old(self).inner.nodes@.contains_key(ptr) && !old(self).inner.is_dead ==> {
                let n = final(self).inner.nodes@[ptr];
                &&& r == Ok::<NodeRef, Errno>(NodeRef::spec_single(new_global_id, strong))
                &&& final(self).inner.nodes@.dom() == old(self).inner.nodes@.dom().insert(ptr)
                &&& n.ptr == ptr && n.cookie == cookie && n.flags == flags && n.global_id == new_global_id
                &&& n.spec_count(strong) == 1 && n.spec_count(!strong) == 0
                &&& n.deaths@ == Seq::<DeathSubscriber>::empty()
                &&& n.refs@ == Seq::<RefLink>::empty()
            },
            forall|p: u64| #[trigger] old(self).inner.nodes@.contains_key(p) && p != ptr ==> final(self).inner.nodes@[p] == old(self).inner.nodes@[p],
    {
        match self.inner.get_existing_node(ptr, cookie) {
            Err(e) => {
                return Err(e);
            },
            Ok(Some(_)) => {},
            Ok(None) => {
                if self.inner.is_dead {
                    return Err(Errno::Srch);
                }
                self.inner.nodes.insert(ptr, Node::new(ptr, cookie, flags, new_global_id));
                proof {
                    assert forall|p: u64| #[trigger] self.inner.nodes@.contains_key(p) implies self.inner.nodes@[p].ptr == p by {
                        if p != ptr {
                            assert(old(self).inner.nodes@.contains_key(p));
                        }
                    }
                }
            },
        }
        let ghost mid = self.inner.nodes@;
        let r = self.inner.new_node_ref_with_thread(ptr, strong, tid);
        proof {
            assert forall|p: u64| #[trigger] old(self).inner.nodes@.contains_key(p) && p != ptr implies self.inner.nodes@[p] == old(self).inner.nodes@[p] by {
                assert(mid.contains_key(p));
            }
        }
        Ok(r)
    }

    /// Records `node_ref` under a handle of this process (see
    /// `ProcessNodeRefs::insert_or_update_handle`); `Srch` once the process is dead.
    pub fn insert_or_update_handle(&mut self, node_ref: NodeRef, is_manager: bool, debug_id: u64) -> (r: Result<u32, Errno>)
        requires
            old(self).wf(),
        ensures
            final(self).wf(),
            final(self).id == old(self).id,
            final(self).pid == old(self).pid,
            Process::dead_stays_dead(old(self), final(self)),
            insert_outcome(&old(self).node_refs, &final(self).node_refs, node_ref, is_manager, old(self).inner.is_dead, debug_id, r),
            final(self).inner == old(self).inner,
    {
        let dead = self.inner.is_dead;
        let r = self.node_refs.insert_or_update_handle(node_ref, is_manager, dead, debug_id);
        proof {
            if old(self).inner.is_dead {
                assert(self.node_refs.by_handle@.dom() =~= old(self).node_refs.by_handle@.dom());
            }
        }
        r
    }

    /// A new single count on the node behind `handle`.
    pub fn get_node_from_handle(&self, handle: u32, strong: bool) -> (r: Result<NodeRef, Errno>)
        ensures
            !self.node_refs.by_handle@.contains_key(handle) ==> r == Err::<NodeRef, Errno>(Errno::NoEnt),
            self.node_refs.by_handle@.contains_key(handle) ==> {
                let nr = self.node_refs.by_handle@[handle].node_ref;
                &&& strong && nr.strong == 0 ==> r == Err::<NodeRef, Errno>(Errno::Inval)
                &&& !(strong && nr.strong == 0) ==> r == Ok::<NodeRef, Errno>(NodeRef::spec_single(nr.node, strong))
            },
    {
        self.node_refs.get_node_from_handle(handle, strong)
    }

    /// The target of a transaction: the context manager for handle 0, else
    /// the node behind `handle`.
    pub fn get_transaction_node(&self, ctx: &Context, handle: u32) -> (r: Result<NodeRef, Errno>)
        ensures
            handle == 0 ==> match ctx.manager {
                Some(m) => r == Ok::<NodeRef, Errno>(NodeRef::spec_single(m.node, true)),
                None => r == Err::<NodeRef, Errno>(Errno::DeadReply),
            },
            handle != 0 && !self.node_refs.by_handle@.contains_key(handle) ==> r == Err::<NodeRef, Errno>(Errno::NoEnt),
            handle != 0 && self.node_refs.by_handle@.contains_key(handle) ==> {
                let nr = self.node_refs.by_handle@[handle].node_ref;
                &&& nr.strong == 0 ==> r == Err::<NodeRef, Errno>(Errno::Inval)
                &&& nr.strong != 0 ==> r == Ok::<NodeRef, Errno>(NodeRef::spec_single(nr.node, true))
            },
    {
        if handle == 0 {
            match ctx.get_manager_node(true) {
                Ok((nr, _owner)) => Ok(nr),
                Err(e) => Err(e),
            }
        } else {
            self.get_node_from_handle(handle, true)
        }
    }

    /// Forgets the delivered death notification with `cookie`, if any.
    pub fn remove_from_delivered_deaths(&mut self, cookie: u64)
        requires
            old(self).wf(),
        ensures
            final(self).wf(),
            final(self).id == old(self).id,
            final(self).pid == old(self).pid,
            Process::dead_stays_dead(old(self), final(self)),
            pulled(old(self).inner.delivered_deaths@, final(self).inner.delivered_deaths@, cookie),
            final(self).inner.work@ == old(self).inner.work@,
            final(self).inner.threads@ == old(self).inner.threads@,
            final(self).inner.nodes@ == old(self).inner.nodes@,
            final(self).inner.is_manager == old(self).inner.is_manager,
            final(self).inner.is_dead == old(self).inner.is_dead,
            final(self).inner.mapping == old(self).inner.mapping,
            final(self).node_refs.by_handle@ == old(self).node_refs.by_handle@,
            final(self).node_refs.by_node@ == old(self).node_refs.by_node@,
    {
        let _ = self.inner.pull_delivered_death(cookie);
    }

    /// Applies an increment or decrement from user space to `handle`.
    ///
    /// An increment of handle 0 while the context has a manager takes a
    /// reference on the manager node instead (`Inval` if this process is the
    /// manager). When a reference drops its last count it is returned, its
    /// death registration is cleared and forgotten among delivered deaths.
    pub fn update_ref(&mut self, ctx: &Context, handle: u32, inc: bool, strong: bool, debug_id: u64) -> (r: Result<
        Option<NodeRefInfo>,
        Errno,
    >)
        requires
            old(self).wf(),
        ensures
            final(self).wf(),
            final(self).id == old(self).id,
            final(self).pid == old(self).pid,
            Process::dead_stays_dead(old(self), final(self)),
            final(self).inner.work@ == old(self).inner.work@,
            final(self).inner.threads@ == old(self).inner.threads@,
            final(self).inner.nodes@ == old(self).inner.nodes@,
            final(self).inner.is_manager == old(self).inner.is_manager,
            inc && handle == 0 && ctx.manager is Some ==> {
                let m = ctx.manager->Some_0;
                if m.owner == old(self).id {
                    &&& r == Err::<Option<NodeRefInfo>, Errno>(Errno::Inval)
                    &&& final(self).node_refs.by_handle@ == old(self).node_refs.by_handle@
                    &&& final(self).node_refs.by_node@ == old(self).node_refs.by_node@
                } else {
                    &&& r == Ok::<Option<NodeRefInfo>, Errno>(None)
                    &&& exists|res: Result<u32, Errno>| #[trigger]
                        insert_outcome(
                            &old(self).node_refs,
                            &final(self).node_refs,
                            NodeRef::spec_single(m.node, strong),
                            true,
                            old(self).inner.is_dead,
                            debug_id,
                            res,
                        )
                }
            },
            !(inc && handle == 0 && ctx.manager is Some) ==> exists|removed: Option<NodeRefInfo>|
                {
                    &&& #[trigger] update_outcome(&old(self).node_refs, &final(self).node_refs, handle, inc, strong, removed)
                    &&& r == Ok::<Option<NodeRefInfo>, Errno>(removed)
                },
            dropped_death(r) matches Some(cookie) ==> pulled(
                old(self).inner.delivered_deaths@,
                final(self).inner.delivered_deaths@,
                cookie,
            ),
            dropped_death(r) is None ==> final(self).inner.delivered_deaths@ == old(self).inner.delivered_deaths@,
    {
        if inc && handle == 0 {
            match ctx.get_manager_node(strong) {
                Ok((nr, owner)) => {
                    if owner == self.id {
                        return Err(Errno::Inval);
                    }
                    let _ = self.insert_or_update_handle(nr, true, debug_id);
                    return Ok(None);
                },
                Err(_) => {},
            }
        }
        let removed = self.node_refs.update_ref(handle, inc, strong);
        match removed {
            Some(info) => {
                match info.death {
                    Some(d) => {
                        self.remove_from_delivered_deaths(d.cookie);
                    },
                    None => {},
                }
            },
            None => {},
        }
        proof {
            if old(self).inner.is_dead {
                assert(self.node_refs.by_handle@.dom().subset_of(old(self).node_refs.by_handle@.dom()));
            }
            assert(update_outcome(&old(self).node_refs, &self.node_refs, handle, inc, strong, removed));
        }
        Ok(removed)
    }

    /// Drops one count of the node at `ptr`, if it exists with this cookie;
    /// a notification owed to the owner goes to the process.
    pub fn update_node(&mut self, ptr: u64, cookie: u64, strong: bool)
        requires
            old(self).wf(),
        ensures
            final(self).wf(),
            final(self).id == old(self).id,
            final(self).pid == old(self).pid,
            Process::dead_stays_dead(old(self), final(self)),
            final(self).inner.nodes@.dom() == old(self).inner.nodes@.dom(),
            old(self).inner.nodes@.contains_key(ptr) && old(self).inner.nodes@[ptr].cookie == cookie ==> node_count_changed(
                old(self).inner.nodes@[ptr],
                final(self).inner.nodes@[ptr],
                false,
                strong,
                1,
            ),
            !(old(self).inner.nodes@.contains_key(ptr) && old(self).inner.nodes@[ptr].cookie == cookie) ==> final(self).inner.nodes@
                == old(self).inner.nodes@,
            final(self).node_refs.by_handle@ == old(self).node_refs.by_handle@,
            final(self).node_refs.by_node@ == old(self).node_refs.by_node@,
    {
        match self.inner.get_existing_node(ptr, cookie) {
            Ok(Some(_)) => {
                let push = self.inner.update_node_refcount(ptr, false, strong, 1);
                match push {
                    Some(w) => {
                        let _ = self.inner.push_work(w);
                    },
                    None => {},
                }
            },
            _ => {},
        }
    }

    /// Makes this process the context manager, through the node described
    /// by `info` (pointer, cookie, flags), or a node with all three zero.
    pub fn set_as_manager(
        &mut self,
        ctx: &mut Context,
        info: Option<(u64, u64, u32)>,
        tid: i32,
        new_global_id: u64,
        euid: u32,
    ) -> (r: Result<(), Errno>)
        requires
            old(self).wf(),
        ensures
            final(self).wf(),
            final(self).id == old(self).id,
            final(self).pid == old(self).pid,
            final(self).inner.is_dead == old(self).inner.is_dead,
            final(self).node_refs.by_handle@ == old(self).node_refs.by_handle@,
            r is Ok ==> final(self).inner.nodes@.dom() =~= old(self).inner.nodes@.dom().insert(manager_ptr(info)),
            final(ctx).procs@ == old(ctx).procs@,
            manager_outcome(old(self), final(self), old(ctx), final(ctx), info, new_global_id, euid, r),
            Process::dead_stays_dead(old(self), final(self)),
    {
        let (ptr, cookie, flags) = match info {
            Some(t) => t,
            None => (0, 0, 0),
        };
        let node_ref = match self.get_node(ptr, cookie, flags, true, tid, new_global_id) {
            Ok(nr) => nr,
            Err(e) => {
                return Err(e);
            },
        };
        match ctx.set_manager_node(node_ref, self.id, euid) {
            Ok(()) => {},
            Err(e) => {
                let push = self.inner.update_node_refcount(ptr, false, true, 1);
                match push {
                    Some(w) => {
                        let _ = self.inner.push_work(w);
                    },
                    None => {},
                }
                return Err(e);
            },
        }
        self.inner.is_manager = true;
        Ok(())
    }

    /// Registers a death notification with `cookie` through `handle`.
    /// `owner_dead` tells whether the owner of the node has died already; the
    /// notification is then queued to this process at once.
    pub fn request_death(&mut self, handle: u32, cookie: u64, owner_dead: bool) -> (r: Result<DeathRequest, Errno>)
        requires
            old(self).wf(),
        ensures
            final(self).wf(),
            final(self).id == old(self).id,
            final(self).pid == old(self).pid,
            Process::dead_stays_dead(old(self), final(self)),
            request_death_outcome(&old(self).node_refs, &final(self).node_refs, handle, cookie, owner_dead, r),
            r == Ok::<DeathRequest, Errno>(DeathRequest::FiredImmediately) ==> exists|res: Result<Delivery, (Errno, Work)>| #[trigger]
                push_outcome(&old(self).inner, &final(self).inner, Work::DeadBinder { cookie }, res),
            r != Ok::<DeathRequest, Errno>(DeathRequest::FiredImmediately) ==> final(self).inner == old(self).inner,
            final(self).inner.nodes@ == old(self).inner.nodes@,
            final(self).inner.is_dead == old(self).inner.is_dead,
    {
        let r = self.node_refs.request_death(handle, cookie, owner_dead);
        match r {
            Ok(DeathRequest::FiredImmediately) => {
                let _ = self.inner.push_work(Work::DeadBinder { cookie });
            },
            _ => {},
        }
        r
    }

    /// Clears the death registration with `cookie` behind `handle`; when a
    /// completion is owed, it goes to thread `tid` if that thread is looping.
    pub fn clear_death(&mut self, handle: u32, cookie: u64, tid: i32) -> (r: Result<(), Errno>)
        requires
            old(self).wf(),
        ensures
            final(self).wf(),
            final(self).id == old(self).id,
            final(self).pid == old(self).pid,
            Process::dead_stays_dead(old(self), final(self)),
            exists|res: Result<bool, Errno>|
                {
                    &&& #[trigger] clear_death_outcome(&old(self).node_refs, &final(self).node_refs, handle, cookie, res)
                    &&& match res {
                        Ok(needs) => {
                            &&& r == Ok::<(), Errno>(())
                            &&& needs ==> pushed_if_looper(old(self).inner.threads@, final(self).inner.threads@, tid, Work::ClearDeathNotification { cookie })
                            &&& !needs ==> final(self).inner.threads@ == old(self).inner.threads@
                        },
                        Err(e) => r == Err::<(), Errno>(e) && final(self).inner.threads@ == old(self).inner.threads@,
                    }
                },
            final(self).inner.work@ == old(self).inner.work@,
            final(self).inner.nodes@ == old(self).inner.nodes@,
            final(self).inner.ready_threads@ == old(self).inner.ready_threads@,
            final(self).inner.is_dead == old(self).inner.is_dead,
    {
        let res = self.node_refs.clear_death(handle, cookie);
        match res {
            Ok(needs) => {
                if needs {
                    self.push_to_thread_if_looper(tid, Work::ClearDeathNotification { cookie });
                }
                assert(clear_death_outcome(&old(self).node_refs, &self.node_refs, handle, cookie, res));
                Ok(())
            },
            Err(e) => {
                assert(clear_death_outcome(&old(self).node_refs, &self.node_refs, handle, cookie, res));
                Err(e)
            },
        }
    }

    /// Hands `work` to thread `tid` if it exists and is looping.
    fn push_to_thread_if_looper(&mut self, tid: i32, work: Work)
        requires
            old(self).wf(),
        ensures
            final(self).wf(),
            final(self).id == old(self).id,
            final(self).pid == old(self).pid,
            pushed_if_looper(old(self).inner.threads@, final(self).inner.threads@, tid, work),
            final(self).inner.work@ == old(self).inner.work@,
            final(self).inner.nodes@ == old(self).inner.nodes@,
            final(self).inner.ready_threads@ == old(self).inner.ready_threads@,
            final(self).inner.is_dead == old(self).inner.is_dead,
            final(self).inner.is_manager == old(self).inner.is_manager,
            final(self).inner.mapping == old(self).inner.mapping,
            final(self).inner.delivered_deaths@ == old(self).inner.delivered_deaths@,
            final(self).node_refs.by_handle@ == old(self).node_refs.by_handle@,
            final(self).node_refs.by_node@ == old(self).node_refs.by_node@,
    {
        let looping = match self.inner.threads.get(&tid) {
            Some(t) => t.looper && !t.dead,
            None => false,
        };
        if !looping {
            return;
        }
        let mut t = self.inner.threads.remove(&tid).unwrap();
        let pushed = t.push_work_if_looper(work);
        self.inner.threads.insert(tid, t);
        proof {
            assert(self.inner.threads@.dom() =~= old(self).inner.threads@.dom());
            assert forall|t2: i32| #[trigger] self.inner.threads@.contains_key(t2) implies self.inner.threads@[t2].id == t2 by {
                if t2 != tid {
                    assert(old(self).inner.threads@.contains_key(t2));
                }
            }
        }
    }

    /// User space confirmed the delivered death notification with `cookie`;
    /// if its registration was cleared meanwhile, the completion goes to
    /// thread `tid` if that thread is looping.
    pub fn dead_binder_done(&mut self, cookie: u64, tid: i32)
        requires
            old(self).wf(),
        ensures
            final(self).wf(),
            final(self).id == old(self).id,
            final(self).pid == old(self).pid,
            Process::dead_stays_dead(old(self), final(self)),
            final(self).inner.work@ == old(self).inner.work@,
            final(self).inner.nodes@ == old(self).inner.nodes@,
            (forall|k: int| 0 <= k < old(self).inner.delivered_deaths@.len() ==> old(self).inner.delivered_deaths@[k].cookie != cookie)
                ==> final(self).inner.delivered_deaths@ == old(self).inner.delivered_deaths@ && final(self).inner.threads@ == old(self).inner.threads@,
            forall|i: int| 0 <= i < old(self).inner.delivered_deaths@.len() && old(self).inner.delivered_deaths@[i].cookie == cookie
                && (forall|k: int| 0 <= k < i ==> old(self).inner.delivered_deaths@[k].cookie != cookie) ==> {
                &&& final(self).inner.delivered_deaths@ == old(self).inner.delivered_deaths@.remove(i)
                &&& old(self).inner.delivered_deaths@[i].cleared ==> pushed_if_looper(
                    old(self).inner.threads@,
                    final(self).inner.threads@,
                    tid,
                    Work::ClearDeathNotification { cookie },
                )
                &&& !old(self).inner.delivered_deaths@[i].cleared ==> final(self).inner.threads@ == old(self).inner.threads@
            },
    {
        let pulled = self.inner.pull_delivered_death(cookie);
        match pulled {
            Some(mut d) => {
                d.notification_done = true;
                if d.cleared {
                    self.push_to_thread_if_looper(tid, Work::ClearDeathNotification { cookie });
                }
                proof {
                    assert forall|i: int| 0 <= i < old(self).inner.delivered_deaths@.len() && old(self).inner.delivered_deaths@[i].cookie == cookie
                        && (forall|k: int| 0 <= k < i ==> old(self).inner.delivered_deaths@[k].cookie != cookie) implies
                        old(self).inner.delivered_deaths@[i] == pulled->Some_0 && self.inner.delivered_deaths@ == old(self).inner.delivered_deaths@.remove(i) by {
                        let j = choose|j: int|
                            {
                                &&& 0 <= j < old(self).inner.delivered_deaths@.len()
                                &&& old(self).inner.delivered_deaths@[j] == pulled->Some_0
                                &&& pulled->Some_0.cookie == cookie
                                &&& forall|k: int| 0 <= k < j ==> old(self).inner.delivered_deaths@[k].cookie != cookie
                                &&& self.inner.delivered_deaths@ == old(self).inner.delivered_deaths@.remove(j)
                            };
                    }
                }
            },
            None => {},
        }
    }
    /// The first node whose user pointer is above `ptr`, described for user
    /// space; all zero when there is none.
    pub fn get_node_debug_info(&self, ptr: u64) -> (r: NodeDebugInfo)
        ensures
            (forall|p: u64| #[trigger] self.inner.nodes@.contains_key(p) ==> p <= ptr) ==> r == NodeDebugInfo::empty(),
            (exists|p: u64| #[trigger] self.inner.nodes@.contains_key(p) && p > ptr) ==> exists|k: u64|
                {
                    &&& #[trigger] self.inner.nodes@.contains_key(k)
                    &&& k > ptr
                    &&& forall|p: u64| #[trigger] self.inner.nodes@.contains_key(p) && p > ptr ==> k <= p
                    &&& r == NodeDebugInfo::of(self.inner.nodes@[k])
                },
    {
        let mut best: Option<u64> = None;
        for k in it: self.inner.nodes.keys()
            invariant
                it.seq().unref().to_set() == self.inner.nodes@.dom(),
                forall|j: u64| #[trigger] self.inner.nodes@.contains_key(j) ==> exists|i: int| 0 <= i < it.seq().len() && *it.seq()[i] == j,
                match best {
                    Some(b) => self.inner.nodes@.contains_key(b) && b > ptr && forall|i: int| 0 <= i < it.index() ==> (#[trigger] *it.seq()[i] > ptr ==> b <= *it.seq()[i]),
                    None => forall|i: int| 0 <= i < it.index() ==> #[trigger] *it.seq()[i] <= ptr,
                },
        {
            proof {
                assert(it.seq().unref()[it.index() as int] == *k);
                assert(it.seq().unref().contains(*k));
            }
            if *k > ptr {
                match best {
                    Some(b) => {
                        if *k < b {
                            best = Some(*k);
                        }
                    },
                    None => {
                        best = Some(*k);
                    },
                }
            }
        }
        match best {
            None => NodeDebugInfo { ptr: 0, cookie: 0, has_strong_ref: 0, has_weak_ref: 0 },
            Some(b) => {
                let node = self.inner.nodes.get(&b).unwrap();
                NodeDebugInfo {
                    ptr: node.ptr,
                    cookie: node.cookie,
                    has_strong_ref: if node.strong > 0 {
                        1
                    } else {
                        0
                    },
                    has_weak_ref: if node.weak > 0 {
                        1
                    } else {
                        0
                    },
                }
            },
        }
    }

    /// The node behind `handle`, for a manager asking for its counts.
    ///
    /// `Inval` when a count or reserved field is set, or the handle holds no
    /// strong reference; `Perm` when this process is not the manager.
    pub fn get_node_info_from_ref(&self, info: NodeInfoForRef) -> (r: Result<NodeRef, Errno>)
        ensures
            info.has_nonzero_fields() ==> r == Err::<NodeRef, Errno>(Errno::Inval),
            !info.has_nonzero_fields() && !self.inner.is_manager ==> r == Err::<NodeRef, Errno>(Errno::Perm),
            !info.has_nonzero_fields() && self.inner.is_manager ==> {
                if self.node_refs.by_handle@.contains_key(info.handle) && self.node_refs.by_handle@[info.handle].node_ref.strong
                    != 0 {
                    r == Ok::<NodeRef, Errno>(NodeRef::spec_single(self.node_refs.by_handle@[info.handle].node_ref.node, true))
                } else {
                    r == Err::<NodeRef, Errno>(Errno::Inval)
                }
            },
    {
        if info.strong_count != 0 || info.weak_count != 0 || info.reserved1 != 0 || info.reserved2 != 0
            || info.reserved3 != 0 {
            return Err(Errno::Inval);
        }
        if !self.inner.is_manager {
            return Err(Errno::Perm);
        }
        match self.get_node_from_handle(info.handle, true) {
            Ok(nr) => Ok(nr),
            Err(_) => Err(Errno::Inval),
        }
    }
    /// User space acknowledged a count change of its node at `ptr`.
    pub fn inc_ref_done(&mut self, ptr: u64, cookie: u64, strong: bool)
        requires
            old(self).wf(),
        ensures
            final(self).wf(),
            final(self).id == old(self).id,
            final(self).pid == old(self).pid,
            Process::dead_stays_dead(old(self), final(self)),
            final(self).inner.nodes@ == old(self).inner.nodes@,
            ({
                let found = old(self).inner.nodes@.contains_key(ptr) && old(self).inner.nodes@[ptr].cookie == cookie;
                if found && old(self).inner.nodes@[ptr].spec_count(strong) == 0 {
                    exists|res: Result<Delivery, (Errno, Work)>| #[trigger]
                        push_outcome(&old(self).inner, &final(self).inner, Work::NodeRefsChanged { ptr }, res)
                } else {
                    final(self).inner.work@ == old(self).inner.work@ && final(self).inner.threads@ == old(self).inner.threads@
                }
            }),
            final(self).node_refs.by_handle@ == old(self).node_refs.by_handle@,
            final(self).node_refs.by_node@ == old(self).node_refs.by_node@,
    {
        let _ = self.inner.inc_ref_done(ptr, cookie, strong);
    }

    /// The references of this process, in handle order.
    pub fn debug_refs(&self) -> (r: Vec<NodeRefInfo>)
        ensures
            r@.to_set() == self.node_refs.by_handle@.values(),
            r@.len() == self.node_refs.by_handle@.dom().len(),
    {
        let mut out: Vec<NodeRefInfo> = Vec::new();
        for info in it: self.node_refs.by_handle.values()
            invariant
                out@ == it.seq().unref().take(it.index() as int),
                it.seq().unref().to_set() == self.node_refs.by_handle@.values(),
                it.seq().len() == self.node_refs.by_handle@.dom().len(),
                it.index() == it.seq().len() ==> out@.to_set() == self.node_refs.by_handle@.values() && out@.len()
                    == self.node_refs.by_handle@.dom().len(),
        {
            out.push(*info);
            proof {
                assert(out@ =~= it.seq().unref().take(it.index() + 1));
                assert(it.index() + 1 == it.seq().len() ==> out@ =~= it.seq().unref());
            }
        }
        out
    }
    /// Records in the owned node at `ptr` that `link` refers to it.
    pub fn link_node_ref(&mut self, ptr: u64, link: RefLink)
        requires
            old(self).wf(),
        ensures
            final(self).wf(),
            final(self).id == old(self).id,
            final(self).pid == old(self).pid,
            Process::dead_stays_dead(old(self), final(self)),
            final(self).inner.nodes@.dom() == old(self).inner.nodes@.dom(),
            forall|p: u64| #[trigger] old(self).inner.nodes@.contains_key(p) && p != ptr ==> final(self).inner.nodes@[p] == old(self).inner.nodes@[p],
            old(self).inner.nodes@.contains_key(ptr) ==> node_same_but_refs(old(self).inner.nodes@[ptr], final(self).inner.nodes@[ptr])
                && final(self).inner.nodes@[ptr].refs@ == old(self).inner.nodes@[ptr].refs@.push(link),
            final(self).node_refs == old(self).node_refs,
            final(self).inner == (ProcessInner { nodes: final(self).inner.nodes, ..old(self).inner }),
            final(self).inner.work@ == old(self).inner.work@,
            final(self).node_refs.by_handle@ == old(self).node_refs.by_handle@,
    {
        if !self.inner.nodes.contains_key(&ptr) {
            return;
        }
        let mut node = self.inner.nodes.remove(&ptr).unwrap();
        node.insert_node_info(link);
        self.inner.nodes.insert(ptr, node);
        proof {
            assert(self.inner.nodes@.dom() =~= old(self).inner.nodes@.dom());
            assert forall|p: u64| #[trigger] self.inner.nodes@.contains_key(p) implies self.inner.nodes@[p].ptr == p by {
                if p != ptr {
                    assert(old(self).inner.nodes@.contains_key(p));
                }
            }
        }
    }

    /// Records in the owned node at `ptr` that `link` no longer refers to it.
    pub fn unlink_node_ref(&mut self, ptr: u64, link: RefLink)
        requires
            old(self).wf(),
        ensures
            final(self).wf(),
            final(self).id == old(self).id,
            final(self).pid == old(self).pid,
            Process::dead_stays_dead(old(self), final(self)),
            final(self).inner.nodes@.dom() == old(self).inner.nodes@.dom(),
            forall|p: u64| #[trigger] old(self).inner.nodes@.contains_key(p) && p != ptr ==> final(self).inner.nodes@[p] == old(self).inner.nodes@[p],
            old(self).inner.nodes@.contains_key(ptr) ==> node_same_but_refs(old(self).inner.nodes@[ptr], final(self).inner.nodes@[ptr])
                && final(self).inner.nodes@[ptr].refs@ == old(self).inner.nodes@[ptr].refs@.filter(|l: RefLink| l != link),
            final(self).node_refs == old(self).node_refs,
            final(self).inner == (ProcessInner { nodes: final(self).inner.nodes, ..old(self).inner }),
            final(self).inner.work@ == old(self).inner.work@,
            final(self).node_refs.by_handle@ == old(self).node_refs.by_handle@,
    {
        if !self.inner.nodes.contains_key(&ptr) {
            return;
        }
        let mut node = self.inner.nodes.remove(&ptr).unwrap();
        node.remove_node_info(link);
        self.inner.nodes.insert(ptr, node);
        proof {
            assert(self.inner.nodes@.dom() =~= old(self).inner.nodes@.dom());
            assert forall|p: u64| #[trigger] self.inner.nodes@.contains_key(p) implies self.inner.nodes@[p].ptr == p by {
                if p != ptr {
                    assert(old(self).inner.nodes@.contains_key(p));
                }
            }
        }
    }
    /// Registers, on the owned node at `ptr`, a death notification of another process.
    pub fn add_node_death(&mut self, ptr: u64, sub: DeathSubscriber)
        requires
            old(self).wf(),
        ensures
            final(self).wf(),
            final(self).id == old(self).id,
            final(self).pid == old(self).pid,
            Process::dead_stays_dead(old(self), final(self)),
            final(self).inner.nodes@.dom() == old(self).inner.nodes@.dom(),
            forall|p: u64| #[trigger] old(self).inner.nodes@.contains_key(p) && p != ptr ==> final(self).inner.nodes@[p] == old(self).inner.nodes@[p],
            old(self).inner.nodes@.contains_key(ptr) ==> node_same_but_deaths(old(self).inner.nodes@[ptr], final(self).inner.nodes@[ptr])
                && final(self).inner.nodes@[ptr].deaths@ == old(self).inner.nodes@[ptr].deaths@.push(sub),
            final(self).node_refs == old(self).node_refs,
            final(self).inner == (ProcessInner { nodes: final(self).inner.nodes, ..old(self).inner }),
            final(self).inner.work@ == old(self).inner.work@,
            final(self).node_refs.by_handle@ == old(self).node_refs.by_handle@,
    {
        if !self.inner.nodes.contains_key(&ptr) {
            return;
        }
        let mut node = self.inner.nodes.remove(&ptr).unwrap();
        node.add_death(sub);
        self.inner.nodes.insert(ptr, node);
        proof {
            assert(self.inner.nodes@.dom() =~= old(self).inner.nodes@.dom());
            assert forall|p: u64| #[trigger] self.inner.nodes@.contains_key(p) implies self.inner.nodes@[p].ptr == p by {
                if p != ptr {
                    assert(old(self).inner.nodes@.contains_key(p));
                }
            }
        }
    }
    /// Forgets, on the owned node at `ptr`, the death registration `sub`.
    pub fn remove_node_death(&mut self, ptr: u64, sub: DeathSubscriber)
        requires
            old(self).wf(),
        ensures
            final(self).wf(),
            final(self).id == old(self).id,
            final(self).pid == old(self).pid,
            Process::dead_stays_dead(old(self), final(self)),
            final(self).node_refs == old(self).node_refs,
            final(self).inner == (ProcessInner { nodes: final(self).inner.nodes, ..old(self).inner }),
            final(self).inner.nodes@.dom() == old(self).inner.nodes@.dom(),
            forall|p: u64| #[trigger] old(self).inner.nodes@.contains_key(p) && p != ptr ==> final(self).inner.nodes@[p] == old(self).inner.nodes@[p],
            old(self).inner.nodes@.contains_key(ptr) ==> final(self).inner.nodes@[ptr].deaths@ == old(self).inner.nodes@[ptr].deaths@.filter(
                |d: DeathSubscriber| d != sub,
) && node_same_but_deaths(old(self).inner.nodes@[ptr], final(self).inner.nodes@[ptr]),
    {
        if !self.inner.nodes.contains_key(&ptr) {
            return;
        }
        let mut node = self.inner.nodes.remove(&ptr).unwrap();
        node.remove_death(sub);
        self.inner.nodes.insert(ptr, node);
        proof {
            assert(self.inner.nodes@.dom() =~= old(self).inner.nodes@.dom());
            assert forall|p: u64| #[trigger] self.inner.nodes@.contains_key(p) implies self.inner.nodes@[p].ptr == p by {
                if p != ptr {
                    assert(old(self).inner.nodes@.contains_key(p));
                }
            }
        }
    }

    /// Forgets, on every owned node, the links and death registrations of process `id`.
    pub fn forget_process(&mut self, id: u64)
        requires
            old(self).wf(),
        ensures
            final(self).wf(),
            final(self).id == old(self).id,
            final(self).pid == old(self).pid,
            Process::dead_stays_dead(old(self), final(self)),
            final(self).node_refs == old(self).node_refs,
            final(self).inner == (ProcessInner { nodes: final(self).inner.nodes, ..old(self).inner }),
            final(self).inner.nodes@.dom() == old(self).inner.nodes@.dom(),
            forall|p: u64| #[trigger] old(self).inner.nodes@.contains_key(p) ==> node_forgot(
                old(self).inner.nodes@[p],
                final(self).inner.nodes@[p],
                id,
            ),
    {
        let keys = node_ptrs(&self.inner.nodes);
        let mut i: usize = 0;
        while i < keys.len()
            invariant
                self.wf(),
                self.id == old(self).id,
                self.pid == old(self).pid,
                self.node_refs == old(self).node_refs,
                self.inner == (ProcessInner { nodes: self.inner.nodes, ..old(self).inner }),
                keys@.to_set() == old(self).inner.nodes@.dom(),
                keys@.no_duplicates(),
                0 <= i <= keys@.len(),
                self.inner.nodes@.dom() == old(self).inner.nodes@.dom(),
                forall|k: int| 0 <= k < i ==> node_forgot(
                    old(self).inner.nodes@[#[trigger] keys@[k]],
                    self.inner.nodes@[keys@[k]],
                    id,
                ),
                forall|p: u64| #[trigger] old(self).inner.nodes@.contains_key(p) && !keys@.take(i as int).contains(p)
                    ==> self.inner.nodes@[p] == old(self).inner.nodes@[p],
            decreases keys@.len() - i,
        {
            let ptr = keys[i];
            proof {
                assert(keys@.contains(ptr));
                assert(old(self).inner.nodes@.contains_key(ptr));
                assert(!keys@.take(i as int).contains(ptr)) by {
                    if keys@.take(i as int).contains(ptr) {
                        let k = choose|k: int| 0 <= k < i && keys@.take(i as int)[k] == ptr;
                        assert(keys@[k] == keys@[i as int]);
                    }
                }
            }
            let ghost before = self.inner.nodes@;
            let mut node = self.inner.nodes.remove(&ptr).unwrap();
            node.forget_process(id);
            self.inner.nodes.insert(ptr, node);
            proof {
                assert(self.inner.nodes@.dom() =~= old(self).inner.nodes@.dom());
                assert forall|p: u64| #[trigger] self.inner.nodes@.contains_key(p) implies self.inner.nodes@[p].ptr == p by {
                    if p != ptr {
                        assert(before.contains_key(p));
                    }
                }
                assert forall|k: int| 0 <= k < i + 1 implies node_forgot(
                    old(self).inner.nodes@[#[trigger] keys@[k]],
                    self.inner.nodes@[keys@[k]],
                    id,
                ) by {
                    if k < i {
                        assert(keys@[k] != ptr);
                    }
                }
                assert forall|p: u64| #[trigger] old(self).inner.nodes@.contains_key(p) && !keys@.take(i + 1).contains(p)
                    implies self.inner.nodes@[p] == old(self).inner.nodes@[p] by {
                    assert(keys@.take(i + 1)[i as int] == ptr);
                    if keys@.take(i as int).contains(p) {
                        let k = choose|k: int| 0 <= k < i && keys@.take(i as int)[k] == p;
                        assert(keys@.take(i + 1)[k] == p);
                    }
                }
            }
            i = i + 1;
        }
        proof {
            assert forall|p: u64| #[trigger] old(self).inner.nodes@.contains_key(p) implies node_forgot(
                old(self).inner.nodes@[p],
                self.inner.nodes@[p],
                id,
            ) by {
                assert(keys@.to_set().contains(p));
                assert(keys@.contains(p));
                let k = choose|k: int| 0 <= k < keys@.len() && keys@[k] == p;
                assert(node_forgot(old(self).inner.nodes@[keys@[k]], self.inner.nodes@[keys@[k]], id));
            }
        }
    }
}

} // verus!
