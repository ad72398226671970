//! The state of a process that its spinlock guards, and the operations made under it.

use vstd::prelude::*;
use std::collections::BTreeMap;
use crate::errors::Errno;
use crate::node::{count_after, Node};
use crate::node_ref::{NodeDeath, NodeRef};
use crate::range_alloc::RangeAllocator;
use crate::thread::Thread;
use crate::work::Work;

verus! {

broadcast use {vstd::std_specs::btree::group_btree_axioms, vstd::laws_cmp::group_laws_cmp};

/// Bit of `defer_work`: ask every thread to leave its looper state.
pub const PROC_DEFER_FLUSH: u8 = 1;

/// Bit of `defer_work`: tear the process down.
pub const PROC_DEFER_RELEASE: u8 = 2;

/// The mapped buffer arena: its user address and its allocator.
pub struct Mapping {
    pub address: usize,
    pub alloc: RangeAllocator,
}

impl Mapping {
    pub open spec fn wf(&self) -> bool {
        &&& self.alloc.wf()
        &&& self.address + self.alloc.size <= usize::MAX
    }

    pub fn new(address: usize, size: usize) -> (r: Mapping)
        requires
            address + size <= usize::MAX,
        ensures
            r.wf(),
            r.address == address,
            r.alloc.size == size,
            r.alloc.ranges@ == Seq::<crate::range_alloc::Reservation>::empty(),
            !r.alloc.oneway_spam_detected,
    {
        Mapping { address, alloc: RangeAllocator::new(size) }
    }
}

/// Where `push_work` put a work item.
#[derive(Clone, Copy, Debug, PartialEq, Eq, Structural)]
pub enum Delivery {
    /// Handed to the ready thread with this id.
    Thread { id: i32 },
    /// Appended to the process queue; every poller must be woken, with this hint.
    Queued { sync_wakeup: bool },
}

/// The two thread maps hold the same ids and differ at most at `tid`.
pub open spec fn threads_same_except(a: Map<i32, Thread>, b: Map<i32, Thread>, tid: i32) -> bool {
    &&& a.dom() == b.dom()
    &&& forall|t: i32| #[trigger] a.contains_key(t) && t != tid ==> a[t] == b[t]
}

/// `b` is the node `a` with one count changed by `n`.
pub open spec fn node_count_changed(a: Node, b: Node, inc: bool, strong: bool, n: u64) -> bool {
    &&& b.ptr == a.ptr
    &&& b.cookie == a.cookie
    &&& b.flags == a.flags
    &&& b.global_id == a.global_id
    &&& b.deaths@ == a.deaths@
    &&& b.refs@ == a.refs@
    &&& b.spec_count(strong) == count_after(a.spec_count(strong), inc, n)
    &&& b.spec_count(!strong) == a.spec_count(!strong)
}

/// What `push_work` does, from the state `o` to the state `n`.
pub open spec fn push_outcome(
    o: &ProcessInner,
    n: &ProcessInner,
    work: Work,
    r: Result<Delivery, (Errno, Work)>,
) -> bool {
    if o.ready_threads@.len() > 0 {
        let tid = o.ready_threads@[0];
        let t = o.threads@[tid];
        &&& n.ready_threads@ =~= o.ready_threads@.drop_first()
        &&& n.work@ =~= o.work@
        &&& threads_same_except(o.threads@, n.threads@, tid)
        &&& n.threads@[tid].dead == t.dead
        &&& n.threads@[tid].looper == t.looper
        &&& n.threads@[tid].has_transaction == t.has_transaction
        &&& t.dead ==> r == Err::<Delivery, (Errno, Work)>((Errno::DeadReply, work))
            && n.threads@[tid].todo@ =~= t.todo@
        &&& !t.dead ==> r == Ok::<Delivery, (Errno, Work)>(Delivery::Thread { id: tid })
            && n.threads@[tid].todo@ =~= t.todo@.push(work)
    } else {
        &&& n.ready_threads@ =~= o.ready_threads@
        &&& n.threads@ =~= o.threads@
        &&& o.is_dead ==> r == Err::<Delivery, (Errno, Work)>((Errno::DeadReply, work))
            && n.work@ =~= o.work@
        &&& !o.is_dead ==> r == Ok::<Delivery, (Errno, Work)>(
            Delivery::Queued { sync_wakeup: work.spec_should_sync_wakeup() },
        ) && n.work@ =~= o.work@.push(work)
    }
}

/// The state of a process that its spinlock guards.
pub struct ProcessInner {
    pub is_manager: bool,
    pub is_dead: bool,
    pub threads: BTreeMap<i32, Thread>,
    /// Threads waiting for process work, the next one to serve first.
    pub ready_threads: Vec<i32>,
    /// Nodes owned by this process, by user pointer.
    pub nodes: BTreeMap<u64, Node>,
    pub mapping: Option<Mapping>,
    pub work: Vec<Work>,
    pub delivered_deaths: Vec<NodeDeath>,
    pub requested_thread_count: u32,
    pub max_threads: u32,
    pub started_thread_count: u32,
    pub defer_work: u8,
    pub outstanding_txns: u32,
    pub is_frozen: bool,
    pub sync_recv: bool,
    pub async_recv: bool,
    pub oneway_spam_detection_enabled: bool,
}

impl ProcessInner {
    pub open spec fn wf(&self) -> bool {
        &&& self.ready_threads@.no_duplicates()
        &&& forall|i: int|
            0 <= i < self.ready_threads@.len() ==> self.threads@.contains_key(
                #[trigger] self.ready_threads@[i],
            )
        &&& forall|t: i32| #[trigger] self.threads@.contains_key(t) ==> self.threads@[t].id == t
        &&& forall|p: u64| #[trigger] self.nodes@.contains_key(p) ==> self.nodes@[p].ptr == p
        &&& self.mapping matches Some(m) ==> m.wf()
    }

    /// Threads started plus threads asked for stay within the pool bound.
    pub open spec fn pool_bounded(&self) -> bool {
        self.started_thread_count + self.requested_thread_count <= self.max_threads
    }

    /// The state of a process that was just opened.
    pub open spec fn is_fresh(&self) -> bool {
        &&& !self.is_manager
        &&& !self.is_dead
        &&& self.threads@ == Map::<i32, Thread>::empty()
        &&& self.ready_threads@ == Seq::<i32>::empty()
        &&& self.nodes@ == Map::<u64, Node>::empty()
        &&& self.mapping is None
        &&& self.work@ == Seq::<Work>::empty()
        &&& self.delivered_deaths@ == Seq::<NodeDeath>::empty()
        &&& self.requested_thread_count == 0
        &&& self.max_threads == 0
        &&& self.started_thread_count == 0
        &&& self.defer_work == 0
        &&& self.outstanding_txns == 0
        &&& !self.is_frozen
        &&& !self.sync_recv
        &&& !self.async_recv
        &&& !self.oneway_spam_detection_enabled
    }

    pub fn new() -> (r: ProcessInner)
        ensures
            r.wf(),
            r.is_fresh(),
            !r.is_manager,
            !r.is_dead,
            r.threads@ == Map::<i32, Thread>::empty(),
            r.ready_threads@ == Seq::<i32>::empty(),
            r.nodes@ == Map::<u64, Node>::empty(),
            r.mapping is None,
            r.work@ == Seq::<Work>::empty(),
            r.delivered_deaths@ == Seq::<NodeDeath>::empty(),
            r.requested_thread_count == 0,
            r.max_threads == 0,
            r.started_thread_count == 0,
            r.defer_work == 0,
            r.outstanding_txns == 0,
            !r.is_frozen,
            !r.sync_recv,
            !r.async_recv,
            !r.oneway_spam_detection_enabled,
    {
        ProcessInner {
            is_manager: false,
            is_dead: false,
            threads: BTreeMap::new(),
            ready_threads: Vec::new(),
            nodes: BTreeMap::new(),
            mapping: None,
            work: Vec::new(),
            delivered_deaths: Vec::new(),
            requested_thread_count: 0,
            max_threads: 0,
            started_thread_count: 0,
            defer_work: 0,
            outstanding_txns: 0,
            is_frozen: false,
            sync_recv: false,
            async_recv: false,
            oneway_spam_detection_enabled: false,
        }
    }

    /// Delivers `work`: to the first ready thread if there is one, else to
    /// the process queue. A dead process, or a dead thread, gives it back.
    pub fn push_work(&mut self, work: Work) -> (r: Result<Delivery, (Errno, Work)>)
        requires
            old(self).wf(),
        ensures
            final(self).wf(),
            push_outcome(old(self), final(self), work, r),
            final(self).is_dead == old(self).is_dead,
            final(self).nodes@ == old(self).nodes@,
            final(self).is_manager == old(self).is_manager,
            final(self).mapping == old(self).mapping,
            final(self).delivered_deaths@ == old(self).delivered_deaths@,
            final(self).requested_thread_count == old(self).requested_thread_count,
            final(self).started_thread_count == old(self).started_thread_count,
            final(self).max_threads == old(self).max_threads,
            final(self).outstanding_txns == old(self).outstanding_txns,
            final(self).is_frozen == old(self).is_frozen,
            final(self).sync_recv == old(self).sync_recv,
            final(self).async_recv == old(self).async_recv,
            final(self).defer_work == old(self).defer_work,
            final(self).oneway_spam_detection_enabled == old(self).oneway_spam_detection_enabled,
            old(self).is_dead ==> final(self).work@ == old(self).work@,
    {
        if self.ready_threads.len() > 0 {
            let tid = self.ready_threads.remove(0);
            assert(old(self).threads@.contains_key(old(self).ready_threads@[0]));
            let mut t = self.threads.remove(&tid).unwrap();
            let res = t.push_work(work);
            self.threads.insert(tid, t);
            proof {
                assert forall|i: int| 0 <= i < self.ready_threads@.len() implies self.threads@.contains_key(
                    #[trigger] self.ready_threads@[i],
                ) by {
                    assert(self.ready_threads@[i] == old(self).ready_threads@[i + 1]);
                    assert(old(self).threads@.contains_key(old(self).ready_threads@[i + 1]));
                }
                assert(self.ready_threads@ =~= old(self).ready_threads@.drop_first());
                assert(self.threads@.dom() =~= old(self).threads@.dom());
                assert forall|t2: i32| #[trigger] self.threads@.contains_key(t2) implies self.threads@[t2].id == t2 by {
                    if t2 != tid {
                        assert(old(self).threads@.contains_key(t2));
                    }
                }
            }
            match res {
                Ok(()) => Ok(Delivery::Thread { id: tid }),
                Err(w) => Err((Errno::DeadReply, w)),
            }
        } else if self.is_dead {
            Err((Errno::DeadReply, work))
        } else {
            let sync = work.should_sync_wakeup();
            self.work.push(work);
            Ok(Delivery::Queued { sync_wakeup: sync })
        }
    }

    /// Forgets the node at `ptr`.
    pub fn remove_node(&mut self, ptr: u64)
        requires
            old(self).wf(),
        ensures
            final(self).wf(),
            final(self).nodes@ == old(self).nodes@.remove(ptr),
            final(self).is_dead == old(self).is_dead,
            final(self).work@ == old(self).work@,
            final(self).threads@ == old(self).threads@,
    {
        self.nodes.remove(&ptr);
    }

    /// The global id of the node at `ptr`, if one exists with this cookie;
    /// `Inval` if the node at `ptr` has another cookie.
    pub fn get_existing_node(&self, ptr: u64, cookie: u64) -> (r: Result<Option<u64>, Errno>)
        ensures
            !self.nodes@.contains_key(ptr) ==> r == Ok::<Option<u64>, Errno>(None),
            self.nodes@.contains_key(ptr) && self.nodes@[ptr].cookie == cookie ==> r == Ok::<
                Option<u64>,
                Errno,
            >(Some(self.nodes@[ptr].global_id)),
            self.nodes@.contains_key(ptr) && self.nodes@[ptr].cookie != cookie ==> r == Err::<
                Option<u64>,
                Errno,
            >(Errno::Inval),
    {
        match self.nodes.get(&ptr) {
            None => Ok(None),
            Some(node) => {
                if node.cookie == cookie {
                    Ok(Some(node.global_id))
                } else {
                    Err(Errno::Inval)
                }
            },
        }
    }

    /// Takes one requested thread into the pool; false if none was requested
    /// (or the started count is at its limit).
    pub fn register_thread(&mut self) -> (r: bool)
        ensures
            *final(self) == (ProcessInner { requested_thread_count: final(self).requested_thread_count, started_thread_count: final(self).started_thread_count, ..*old(self) }),
            r == (old(self).requested_thread_count > 0 && old(self).started_thread_count < u32::MAX),
            r ==> final(self).requested_thread_count == old(self).requested_thread_count - 1
                && final(self).started_thread_count == old(self).started_thread_count + 1,
            !r ==> final(self).requested_thread_count == old(self).requested_thread_count
                && final(self).started_thread_count == old(self).started_thread_count,
            final(self).max_threads == old(self).max_threads,
            old(self).pool_bounded() ==> final(self).pool_bounded(),
            final(self).is_dead == old(self).is_dead,
            final(self).threads@ == old(self).threads@,
            final(self).ready_threads@ == old(self).ready_threads@,
            final(self).nodes@ == old(self).nodes@,
            final(self).work@ == old(self).work@,
            final(self).mapping == old(self).mapping,
    {
        if self.requested_thread_count == 0 || self.started_thread_count == u32::MAX {
            return false;
        }
        self.requested_thread_count = self.requested_thread_count - 1;
        self.started_thread_count = self.started_thread_count + 1;
        true
    }
    /// Changes a count of the node at `ptr` by `n`; returns the notification
    /// that its owner is owed, if the count moved between zero and nonzero.
    pub fn update_node_refcount(&mut self, ptr: u64, inc: bool, strong: bool, n: u64) -> (r: Option<Work>)
        requires
            old(self).wf(),
            old(self).nodes@.contains_key(ptr),
        ensures
            final(self).wf(),
            final(self).nodes@.dom() == old(self).nodes@.dom(),
            forall|p: u64| #[trigger] old(self).nodes@.contains_key(p) && p != ptr ==> final(self).nodes@[p] == old(self).nodes@[p],
            node_count_changed(old(self).nodes@[ptr], final(self).nodes@[ptr], inc, strong, n),
            r == (if (old(self).nodes@[ptr].spec_count(strong) == 0) != (final(self).nodes@[ptr].spec_count(strong) == 0) {
                Some(Work::NodeRefsChanged { ptr })
            } else {
                None::<Work>
            }),
            final(self).is_dead == old(self).is_dead,
            final(self).threads@ == old(self).threads@,
            final(self).ready_threads@ == old(self).ready_threads@,
            final(self).work@ == old(self).work@,
            final(self).mapping == old(self).mapping,
            final(self).is_manager == old(self).is_manager,
            final(self).outstanding_txns == old(self).outstanding_txns,
            final(self).delivered_deaths@ == old(self).delivered_deaths@,
    {
        let mut node = self.nodes.remove(&ptr).unwrap();
        let push = node.update_refcount(inc, strong, n);
        self.nodes.insert(ptr, node);
        proof {
            assert(self.nodes@.dom() =~= old(self).nodes@.dom());
            assert forall|p: u64| #[trigger] self.nodes@.contains_key(p) implies self.nodes@[p].ptr == p by {
                if p != ptr {
                    assert(old(self).nodes@.contains_key(p));
                }
            }
        }
        if push {
            Some(Work::NodeRefsChanged { ptr })
        } else {
            None
        }
    }

    /// Removes and returns the first delivered death notification with `cookie`.
    pub fn pull_delivered_death(&mut self, cookie: u64) -> (r: Option<NodeDeath>)
        ensures
            match r {
                Some(d) => exists|i: int|
                    {
                        &&& 0 <= i < old(self).delivered_deaths@.len()
                        &&& old(self).delivered_deaths@[i] == d
                        &&& d.cookie == cookie
                        &&& forall|k: int| 0 <= k < i ==> old(self).delivered_deaths@[k].cookie != cookie
                        &&& final(self).delivered_deaths@ == old(self).delivered_deaths@.remove(i)
                    },
                None => {
                    &&& forall|k: int| 0 <= k < old(self).delivered_deaths@.len() ==> old(self).delivered_deaths@[k].cookie != cookie
                    &&& final(self).delivered_deaths@ == old(self).delivered_deaths@
                },
            },
            final(self).is_dead == old(self).is_dead,
            final(self).is_manager == old(self).is_manager,
            final(self).threads@ == old(self).threads@,
            final(self).ready_threads@ == old(self).ready_threads@,
            final(self).nodes@ == old(self).nodes@,
            final(self).work@ == old(self).work@,
            final(self).mapping == old(self).mapping,
            final(self).outstanding_txns == old(self).outstanding_txns,
            final(self).is_frozen == old(self).is_frozen,
    {
        let mut i: usize = 0;
        while i < self.delivered_deaths.len()
            invariant
                0 <= i <= self.delivered_deaths@.len(),
                *self == *old(self),
                forall|k: int| 0 <= k < i ==> self.delivered_deaths@[k].cookie != cookie,
            decreases self.delivered_deaths@.len() - i,
        {
            if self.delivered_deaths[i].cookie == cookie {
                let d = self.delivered_deaths.remove(i);
                return Some(d);
            }
            i = i + 1;
        }
        None
    }

    /// Records that `death` was delivered and awaits user confirmation; a
    /// notification already recorded under its cookie is not added twice.
    pub fn death_delivered(&mut self, death: NodeDeath)
        ensures
            (exists|k: int| 0 <= k < old(self).delivered_deaths@.len() && old(self).delivered_deaths@[k].cookie == death.cookie)
                ==> final(self).delivered_deaths@ == old(self).delivered_deaths@,
            !(exists|k: int| 0 <= k < old(self).delivered_deaths@.len() && old(self).delivered_deaths@[k].cookie == death.cookie)
                ==> final(self).delivered_deaths@ == old(self).delivered_deaths@.push(death),
            final(self).is_dead == old(self).is_dead,
            final(self).is_manager == old(self).is_manager,
            final(self).threads@ == old(self).threads@,
            final(self).ready_threads@ == old(self).ready_threads@,
            final(self).nodes@ == old(self).nodes@,
            final(self).work@ == old(self).work@,
            final(self).mapping == old(self).mapping,
            final(self).outstanding_txns == old(self).outstanding_txns,
            final(self).is_frozen == old(self).is_frozen,
    {
        let mut i: usize = 0;
        while i < self.delivered_deaths.len()
            invariant
                0 <= i <= self.delivered_deaths@.len(),
                *self == *old(self),
                forall|k: int| 0 <= k < i ==> self.delivered_deaths@[k].cookie != death.cookie,
            decreases self.delivered_deaths@.len() - i,
        {
            if self.delivered_deaths[i].cookie == death.cookie {
                return;
            }
            i = i + 1;
        }
        self.delivered_deaths.push(death);
    }

    /// Counts one more transaction in flight (stopping at `u32::MAX`).
    pub fn add_outstanding_txn(&mut self)
        ensures
            *final(self) == (ProcessInner { outstanding_txns: final(self).outstanding_txns, ..*old(self) }),
            final(self).outstanding_txns == if old(self).outstanding_txns < u32::MAX {
                (old(self).outstanding_txns + 1) as u32
            } else {
                u32::MAX
            },
            final(self).is_frozen == old(self).is_frozen,
            final(self).is_dead == old(self).is_dead,
            final(self).threads@ == old(self).threads@,
            final(self).ready_threads@ == old(self).ready_threads@,
            final(self).nodes@ == old(self).nodes@,
            final(self).work@ == old(self).work@,
            final(self).mapping == old(self).mapping,
    {
        if self.outstanding_txns < u32::MAX {
            self.outstanding_txns = self.outstanding_txns + 1;
        }
    }

    /// Some transaction is in flight, or some thread is inside one.
    pub open spec fn spec_txns_pending(&self) -> bool {
        self.outstanding_txns > 0 || exists|t: i32| #[trigger] self.threads@.contains_key(t) && self.threads@[t].has_transaction
    }

    pub fn txns_pending_locked(&self) -> (r: bool)
        ensures
            r == self.spec_txns_pending(),
    {
        if self.outstanding_txns > 0 {
            return true;
        }
        for t in it: self.threads.values()
            invariant
                it.seq().unref().to_set() == self.threads@.values(),
                self.outstanding_txns == 0,
                forall|k: int| 0 <= k < it.index() ==> !(#[trigger] it.seq()[k]).has_transaction,
                it.index() == it.seq().len() ==> forall|v: Thread| #[trigger] self.threads@.values().contains(v) ==> !v.has_transaction,
        {
            proof {
                assert(it.seq().unref()[it.index() as int] == *t);
                assert(it.seq().unref().contains(*t));
            }
            if t.has_transaction {
                proof {
                    assert(self.threads@.values().contains(*t));
                    let k = choose|k: i32| self.threads@.contains_key(k) && self.threads@[k] == *t;
                    assert(self.threads@.contains_key(k) && self.threads@[k].has_transaction);
                }
                return true;
            }
            proof {
                assert forall|v: Thread| #[trigger] self.threads@.values().contains(v) && it.index() + 1 == it.seq().len() implies !v.has_transaction by {
                    assert(it.seq().unref().to_set().contains(v));
                    assert(it.seq().unref().contains(v));
                    let k = choose|k: int| 0 <= k < it.seq().unref().len() && it.seq().unref()[k] == v;
                    assert(k <= it.index());
                }
            }
        }
        proof {
            assert forall|t: i32| #[trigger] self.threads@.contains_key(t) implies !self.threads@[t].has_transaction by {
                assert(self.threads@.values().contains(self.threads@[t]));
            }
        }
        false
    }
    /// Takes one count of the given kind on the owned node at `ptr` and
    /// returns the matching reference; a notification owed to the owner goes
    /// to thread `tid`, if it exists.
    pub fn new_node_ref_with_thread(&mut self, ptr: u64, strong: bool, tid: i32) -> (r: NodeRef)
        requires
            old(self).wf(),
            old(self).nodes@.contains_key(ptr),
        ensures
            final(self).wf(),
            r == NodeRef::spec_single(old(self).nodes@[ptr].global_id, strong),
            final(self).nodes@.dom() == old(self).nodes@.dom(),
            forall|p: u64| #[trigger] old(self).nodes@.contains_key(p) && p != ptr ==> final(self).nodes@[p] == old(self).nodes@[p],
            node_count_changed(old(self).nodes@[ptr], final(self).nodes@[ptr], true, strong, 1),
            final(self).threads@.dom() == old(self).threads@.dom(),
            final(self).is_dead == old(self).is_dead,
            final(self).is_manager == old(self).is_manager,
            final(self).work@ == old(self).work@,
            final(self).mapping == old(self).mapping,
            final(self).ready_threads@ == old(self).ready_threads@,
            final(self).delivered_deaths@ == old(self).delivered_deaths@,
            final(self).outstanding_txns == old(self).outstanding_txns,
    {
        let gid = self.nodes.get(&ptr).unwrap().global_id;
        let ghost mid0 = self.nodes@;
        let push = self.update_node_refcount(ptr, true, strong, 1);
        match push {
            Some(w) => {
                if self.threads.contains_key(&tid) {
                    let mut t = self.threads.remove(&tid).unwrap();
                    let _ = t.push_work(w);
                    self.threads.insert(tid, t);
                    proof {
                        assert(self.threads@.dom() =~= old(self).threads@.dom());
                        assert forall|t2: i32| #[trigger] self.threads@.contains_key(t2) implies self.threads@[t2].id == t2 by {
                            if t2 != tid {
                                assert(old(self).threads@.contains_key(t2));
                            }
                        }
                    }
                }
            },
            None => {},
        }
        NodeRef::new(gid, strong)
    }

    /// User space acknowledged a count change of the node at `ptr`; if no
    /// count of that kind is left meanwhile, the owner is told again.
    pub fn inc_ref_done(&mut self, ptr: u64, cookie: u64, strong: bool) -> (r: Option<Work>)
        requires
            old(self).wf(),
        ensures
            final(self).wf(),
            final(self).nodes@ == old(self).nodes@,
            final(self).is_dead == old(self).is_dead,
            final(self).mapping == old(self).mapping,
            final(self).is_manager == old(self).is_manager,
            final(self).outstanding_txns == old(self).outstanding_txns,
            ({
                let found = old(self).nodes@.contains_key(ptr) && old(self).nodes@[ptr].cookie == cookie;
                if found && old(self).nodes@[ptr].spec_count(strong) == 0 {
                    &&& r == Some(Work::NodeRefsChanged { ptr })
                    &&& exists|res: Result<Delivery, (Errno, Work)>| #[trigger]
                        push_outcome(old(self), final(self), Work::NodeRefsChanged { ptr }, res)
                } else {
                    &&& r is None
                    &&& final(self).work@ == old(self).work@
                    &&& final(self).threads@ == old(self).threads@
                    &&& final(self).ready_threads@ == old(self).ready_threads@
                }
            }),
    {
        let zero = match self.nodes.get(&ptr) {
            Some(node) => node.cookie == cookie && (if strong {
                node.strong
            } else {
                node.weak
            }) == 0,
            None => false,
        };
        if zero {
            let w = Work::NodeRefsChanged { ptr };
            let _ = self.push_work(w);
            Some(w)
        } else {
            None
        }
    }
}

} // verus!
