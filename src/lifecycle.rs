//! The thread pool, the freeze control, deferred flush and release, and teardown.

use vstd::prelude::*;
use std::collections::BTreeMap;
use crate::context::Context;
use crate::errors::Errno;
use crate::inner::{ProcessInner, PROC_DEFER_FLUSH, PROC_DEFER_RELEASE};
use crate::node::{DeathSubscriber, Node};
use crate::node_refs::NodeRefInfo;
use crate::process::Process;
use crate::range_alloc::Reservation;
use crate::thread::Thread;
use crate::work::Work;

verus! {

broadcast use {vstd::std_specs::btree::group_btree_axioms, vstd::laws_cmp::group_laws_cmp};

/// The protocol version reported to user space.
pub const BINDER_CURRENT_PROTOCOL_VERSION: i32 = 8;

/// Poll bit: data to read.
pub const POLLIN: u32 = 1;

/// The state of a freeze request.
#[derive(Clone, Copy, Debug, PartialEq, Eq, Structural)]
pub enum FreezeStep {
    /// The request succeeded.
    Done,
    /// The request failed with this error.
    Failed(Errno),
    /// The caller must wait for in-flight transactions, for at most `remaining`.
    Wait { remaining: u64 },
}

/// How a freeze wait ended.
#[derive(Clone, Copy, Debug, PartialEq, Eq, Structural)]
pub enum WaitEvent {
    /// A signal interrupted the wait.
    Signal,
    /// The waiter was woken with `remaining` time left.
    Woken { remaining: u64 },
    /// The time ran out.
    Timeout,
}

/// What a run of the deferred work did.
pub struct DeferredRun {
    /// Threads asked to leave their looper state, if a flush was pending.
    pub flushed: Option<Vec<i32>>,
    /// The teardown report, if a release was pending.
    pub released: Option<ReleaseReport>,
}

/// What teardown leaves for the caller to act on.
pub struct ReleaseReport {
    /// The process was the context manager.
    pub was_manager: bool,
    /// User pointers of the owned nodes that were released.
    pub released_nodes: Vec<u64>,
    /// Queued work, in queue order, to cancel.
    pub cancelled: Vec<Work>,
    /// User address of the arena the freed buffers lay in.
    pub address: usize,
    /// Buffers of the arena, each to tear down.
    pub freed: Vec<Reservation>,
    /// The references this process held on nodes of other processes; each
    /// owner drops their links and death registrations with
    /// `Process::apply_release_report`.
    pub dropped_refs: Vec<NodeRefInfo>,
    /// Threads to release.
    pub released_threads: Vec<i32>,
    /// Death registrations on owned nodes; each subscriber is told of the
    /// death by `Process::apply_release_report`.
    pub dead_notifications: Vec<DeathSubscriber>,
}

/// The user pointers of `nodes`.
pub(crate) fn node_ptrs(nodes: &BTreeMap<u64, Node>) -> (r: Vec<u64>)
    ensures
        r@.to_set() == nodes@.dom(),
        r@.no_duplicates(),
        r@.len() == nodes@.dom().len(),
{
    let mut out: Vec<u64> = Vec::new();
    for k in it: nodes.keys()
        invariant
            out@ == it.seq().unref().take(it.index() as int),
            it.seq().unref().to_set() == nodes@.dom(),
            it.seq().no_duplicates(),
            it.seq().len() == nodes@.dom().len(),
            out@.no_duplicates(),
            it.index() == it.seq().len() ==> out@.to_set() == nodes@.dom() && out@.len() == nodes@.dom().len(),
    {
        proof {
            assert(!out@.contains(*k)) by {
                if out@.contains(*k) {
                    let j = choose|j: int| 0 <= j < out@.len() && out@[j] == *k;
                    assert(it.seq()[j] == it.seq()[it.index() as int]);
                }
            }
        }
        out.push(*k);
        proof {
            assert(out@ =~= it.seq().unref().take(it.index() + 1));
            assert(it.index() + 1 == it.seq().len() ==> out@ =~= it.seq().unref());
        }
    }
    out
}

/// The ids of `threads`.
fn thread_ids(threads: &BTreeMap<i32, Thread>) -> (r: Vec<i32>)
    ensures
        r@.to_set() == threads@.dom(),
        r@.no_duplicates(),
        r@.len() == threads@.dom().len(),
{
    let mut out: Vec<i32> = Vec::new();
    for k in it: threads.keys()
        invariant
            out@ == it.seq().unref().take(it.index() as int),
            it.seq().unref().to_set() == threads@.dom(),
            it.seq().no_duplicates(),
            it.seq().len() == threads@.dom().len(),
            out@.no_duplicates(),
            it.index() == it.seq().len() ==> out@.to_set() == threads@.dom() && out@.len() == threads@.dom().len(),
    {
        proof {
            assert(!out@.contains(*k)) by {
                if out@.contains(*k) {
                    let j = choose|j: int| 0 <= j < out@.len() && out@[j] == *k;
                    assert(it.seq()[j] == it.seq()[it.index() as int]);
                }
            }
        }
        out.push(*k);
        proof {
            assert(out@ =~= it.seq().unref().take(it.index() + 1));
            assert(it.index() + 1 == it.seq().len() ==> out@ =~= it.seq().unref());
        }
    }
    out
}

/// `x` is a death registration held by one of `nodes`.
pub open spec fn is_death_of(nodes: Map<u64, Node>, x: DeathSubscriber) -> bool {
    exists|p: u64, j: int| nodes.contains_key(p) && 0 <= j < nodes[p].deaths@.len() && nodes[p].deaths@[j] == x
}

/// Every death registration held by `nodes`.
fn collect_deaths(nodes: &BTreeMap<u64, Node>) -> (r: Vec<DeathSubscriber>)
    ensures
        forall|p: u64, j: int| #[trigger] nodes@.contains_key(p) && 0 <= j < nodes@[p].deaths@.len() ==> r@.contains(
            #[trigger] nodes@[p].deaths@[j],
        ),
        forall|x: DeathSubscriber| #[trigger] r@.contains(x) ==> is_death_of(nodes@, x),
{
    let mut out: Vec<DeathSubscriber> = Vec::new();
    for node in it: nodes.values()
        invariant
            it.seq().unref().to_set() == nodes@.values(),
            forall|k: int, j: int| 0 <= k < it.index() && 0 <= j < (*it.seq()[k]).deaths@.len() ==> out@.contains(
                #[trigger] (*it.seq()[k]).deaths@[j],
            ),
            it.index() == it.seq().len() ==> forall|v: Node, j: int| #[trigger] nodes@.values().contains(v) && 0 <= j < v.deaths@.len()
                ==> out@.contains(#[trigger] v.deaths@[j]),
            forall|x: DeathSubscriber| #[trigger] out@.contains(x) ==> is_death_of(nodes@, x),
    {
        let ghost before = out@;
        proof {
            assert(it.seq().unref()[it.index() as int] == *node);
            assert(it.seq().unref().contains(*node));
            assert(nodes@.values().contains(*node));
        }
        let ghost key = choose|p: u64| nodes@.contains_key(p) && nodes@[p] == *node;
        let mut i: usize = 0;
        while i < node.deaths.len()
            invariant
                0 <= i <= node.deaths@.len(),
                out@ == before + node.deaths@.take(i as int),
                nodes@.contains_key(key) && nodes@[key] == *node,
                forall|x: DeathSubscriber| #[trigger] before.contains(x) ==> is_death_of(nodes@, x),
                forall|x: DeathSubscriber| #[trigger] out@.contains(x) ==> is_death_of(nodes@, x),
            decreases node.deaths@.len() - i,
        {
            let ghost prev = out@;
            out.push(node.deaths[i]);
            proof {
                assert forall|x: DeathSubscriber| #[trigger] out@.contains(x) implies is_death_of(nodes@, x) by {
                    let k = choose|k: int| 0 <= k < out@.len() && out@[k] == x;
                    if k < prev.len() {
                        assert(prev[k] == x);
                        assert(prev.contains(x));
                    } else {
                        assert(nodes@[key].deaths@[i as int] == x);
                    }
                }
                assert(node.deaths@.take(i + 1) =~= node.deaths@.take(i as int).push(node.deaths@[i as int]));
                assert(out@ =~= before + node.deaths@.take(i + 1));
            }
            i = i + 1;
        }
        proof {
            assert(node.deaths@.take(node.deaths@.len() as int) =~= node.deaths@);
            assert forall|k: int, j: int| 0 <= k < it.index() + 1 && 0 <= j < (*it.seq()[k]).deaths@.len() implies out@.contains(
                #[trigger] (*it.seq()[k]).deaths@[j],
            ) by {
                if k < it.index() {
                    assert(before.contains((*it.seq()[k]).deaths@[j]));
                    let x = choose|x: int| 0 <= x < before.len() && before[x] == (*it.seq()[k]).deaths@[j];
                    assert(out@[x] == before[x]);
                } else {
                    assert(*it.seq()[k] == *node);
                    assert(out@[before.len() + j] == node.deaths@[j]);
                }
            }
            assert forall|v: Node, j: int| #[trigger] nodes@.values().contains(v) && 0 <= j < v.deaths@.len() && it.index() + 1 == it.seq().len()
                implies out@.contains(#[trigger] v.deaths@[j]) by {
                assert(it.seq().unref().to_set().contains(v));
                assert(it.seq().unref().contains(v));
                let k = choose|k: int| 0 <= k < it.seq().unref().len() && it.seq().unref()[k] == v;
                assert(*it.seq()[k] == v);
            }
        }
    }
    proof {
        assert forall|p: u64, j: int| #[trigger] nodes@.contains_key(p) && 0 <= j < nodes@[p].deaths@.len() implies out@.contains(
            #[trigger] nodes@[p].deaths@[j],
        ) by {
            assert(nodes@.values().contains(nodes@[p]));
        }
    }
    out
}

impl Process {
    /// Takes one requested thread into the pool.
    pub fn register_thread(&mut self) -> (r: bool)
        requires
            old(self).wf(),
        ensures
            final(self).node_refs == old(self).node_refs,
            final(self).inner == (ProcessInner { requested_thread_count: final(self).inner.requested_thread_count, started_thread_count: final(self).inner.started_thread_count, ..old(self).inner }),
            final(self).wf(),
            final(self).id == old(self).id,
            final(self).pid == old(self).pid,
            Process::dead_stays_dead(old(self), final(self)),
            r == (old(self).inner.requested_thread_count > 0 && old(self).inner.started_thread_count < u32::MAX),
            r ==> final(self).inner.requested_thread_count == old(self).inner.requested_thread_count - 1
                && final(self).inner.started_thread_count == old(self).inner.started_thread_count + 1,
            !r ==> final(self).inner.requested_thread_count == old(self).inner.requested_thread_count
                && final(self).inner.started_thread_count == old(self).inner.started_thread_count,
            final(self).inner.max_threads == old(self).inner.max_threads,
            old(self).inner.pool_bounded() ==> final(self).inner.pool_bounded(),
    {
        self.inner.register_thread()
    }

    /// Forgets thread `tid` (also among the ready threads) and hands its
    /// record back, marked dead, for release.
    pub fn remove_thread(&mut self, tid: i32) -> (r: Option<Thread>)
        requires
            old(self).wf(),
        ensures
            final(self).wf(),
            final(self).id == old(self).id,
            final(self).pid == old(self).pid,
            Process::dead_stays_dead(old(self), final(self)),
            final(self).inner.threads@ == old(self).inner.threads@.remove(tid),
            !final(self).inner.ready_threads@.contains(tid),
            forall|t: i32| t != tid ==> (final(self).inner.ready_threads@.contains(t) <==> old(self).inner.ready_threads@.contains(t)),
            old(self).inner.threads@.contains_key(tid) <==> r is Some,
            r matches Some(t) ==> t.dead && t.id == tid && t.todo@ == old(self).inner.threads@[tid].todo@,
            final(self).inner.work@ == old(self).inner.work@,
            final(self).inner.nodes@ == old(self).inner.nodes@,
    {
        self.unregister_ready(tid);
        let removed = self.inner.threads.remove(&tid);
        proof {
            assert forall|i: int| 0 <= i < self.inner.ready_threads@.len() implies self.inner.threads@.contains_key(
                #[trigger] self.inner.ready_threads@[i],
            ) by {
                assert(self.inner.ready_threads@.contains(self.inner.ready_threads@[i]));
            }
            assert forall|t: i32| t != tid implies (self.inner.ready_threads@.contains(t) <==> old(self).inner.ready_threads@.contains(t)) by {
                if old(self).inner.ready_threads@.contains(tid) {
                    let i = choose|i: int|
                        0 <= i < old(self).inner.ready_threads@.len() && old(self).inner.ready_threads@[i] == tid
                            && self.inner.ready_threads@ == old(self).inner.ready_threads@.remove(i);
                    if old(self).inner.ready_threads@.contains(t) {
                        let k = choose|k: int| 0 <= k < old(self).inner.ready_threads@.len() && old(self).inner.ready_threads@[k] == t;
                        let k1 = if k < i { k } else { k - 1 };
                        assert(self.inner.ready_threads@[k1] == t);
                    }
                    if self.inner.ready_threads@.contains(t) {
                        let k = choose|k: int| 0 <= k < self.inner.ready_threads@.len() && self.inner.ready_threads@[k] == t;
                        let k0 = if k < i { k } else { k + 1 };
                        assert(old(self).inner.ready_threads@[k0] == t);
                    }
                }
            }
        }
        match removed {
            Some(mut t) => {
                t.dead = true;
                Some(t)
            },
            None => None,
        }
    }

    pub fn set_max_threads(&mut self, max: u32)
        requires
            old(self).wf(),
        ensures
            final(self).node_refs == old(self).node_refs,
            final(self).inner == (ProcessInner { max_threads: final(self).inner.max_threads, ..old(self).inner }),
            final(self).wf(),
            final(self).id == old(self).id,
            final(self).pid == old(self).pid,
            Process::dead_stays_dead(old(self), final(self)),
            final(self).inner.max_threads == max,
            final(self).inner.started_thread_count == old(self).inner.started_thread_count,
            final(self).inner.requested_thread_count == old(self).inner.requested_thread_count,
            old(self).inner.started_thread_count + old(self).inner.requested_thread_count <= max ==> final(self).inner.pool_bounded(),
    {
        self.inner.max_threads = max;
    }

    pub fn set_oneway_spam_detection_enabled(&mut self, enabled: u32)
        requires
            old(self).wf(),
        ensures
            final(self).node_refs == old(self).node_refs,
            final(self).inner == (ProcessInner { oneway_spam_detection_enabled: final(self).inner.oneway_spam_detection_enabled, ..old(self).inner }),
            final(self).wf(),
            final(self).id == old(self).id,
            final(self).pid == old(self).pid,
            Process::dead_stays_dead(old(self), final(self)),
            final(self).inner.oneway_spam_detection_enabled == (enabled != 0),
    {
        self.inner.oneway_spam_detection_enabled = enabled != 0;
    }

    pub fn is_oneway_spam_detection_enabled(&self) -> (r: bool)
        ensures
            r == self.inner.oneway_spam_detection_enabled,
    {
        self.inner.oneway_spam_detection_enabled
    }

    /// Whether user space should start one more pool thread: none is
    /// requested yet, none is ready and the pool is below its bound. When
    /// true, the request is counted.
    pub fn needs_thread(&mut self) -> (r: bool)
        requires
            old(self).wf(),
        ensures
            final(self).node_refs == old(self).node_refs,
            final(self).inner == (ProcessInner { requested_thread_count: final(self).inner.requested_thread_count, ..old(self).inner }),
            final(self).wf(),
            final(self).id == old(self).id,
            final(self).pid == old(self).pid,
            Process::dead_stays_dead(old(self), final(self)),
            r == (old(self).inner.requested_thread_count == 0 && old(self).inner.ready_threads@.len() == 0
                && old(self).inner.started_thread_count < old(self).inner.max_threads),
            r ==> final(self).inner.requested_thread_count == 1,
            !r ==> final(self).inner.requested_thread_count == old(self).inner.requested_thread_count,
            final(self).inner.started_thread_count == old(self).inner.started_thread_count,
            final(self).inner.max_threads == old(self).inner.max_threads,
            old(self).inner.pool_bounded() ==> final(self).inner.pool_bounded(),
    {
        let ret = self.inner.requested_thread_count == 0 && self.inner.ready_threads.len() == 0
            && self.inner.started_thread_count < self.inner.max_threads;
        if ret {
            self.inner.requested_thread_count = 1;
        }
        ret
    }

    /// One transaction in flight is done; returns whether freeze waiters
    /// must be woken. An underflow leaves the count alone.
    pub fn drop_outstanding_txn(&mut self) -> (r: bool)
        requires
            old(self).wf(),
        ensures
            final(self).node_refs == old(self).node_refs,
            final(self).inner == (ProcessInner { outstanding_txns: final(self).inner.outstanding_txns, ..old(self).inner }),
            final(self).wf(),
            final(self).id == old(self).id,
            final(self).pid == old(self).pid,
            Process::dead_stays_dead(old(self), final(self)),
            old(self).inner.outstanding_txns == 0 ==> !r && final(self).inner.outstanding_txns == 0,
            old(self).inner.outstanding_txns > 0 ==> final(self).inner.outstanding_txns == old(self).inner.outstanding_txns - 1
                && r == (old(self).inner.is_frozen && final(self).inner.outstanding_txns == 0),
            final(self).inner.is_frozen == old(self).inner.is_frozen,
            final(self).inner.threads@ == old(self).inner.threads@,
    {
        if self.inner.outstanding_txns == 0 {
            return false;
        }
        self.inner.outstanding_txns = self.inner.outstanding_txns - 1;
        self.inner.is_frozen && self.inner.outstanding_txns == 0
    }

    /// Counts one more transaction in flight.
    pub fn add_outstanding_txn(&mut self)
        requires
            old(self).wf(),
        ensures
            final(self).node_refs == old(self).node_refs,
            final(self).inner == (ProcessInner { outstanding_txns: final(self).inner.outstanding_txns, ..old(self).inner }),
            final(self).wf(),
            final(self).id == old(self).id,
            final(self).pid == old(self).pid,
            Process::dead_stays_dead(old(self), final(self)),
            final(self).inner.outstanding_txns == if old(self).inner.outstanding_txns < u32::MAX {
                (old(self).inner.outstanding_txns + 1) as u32
            } else {
                u32::MAX
            },
            final(self).inner.is_frozen == old(self).inner.is_frozen,
            final(self).inner.threads@ == old(self).inner.threads@,
    {
        self.inner.add_outstanding_txn();
    }

    /// Ends a freeze request: it fails with `Again`, and unfreezes, while
    /// transactions are pending.
    fn finish_freeze(&mut self) -> (r: FreezeStep)
        requires
            old(self).wf(),
        ensures
            final(self).node_refs == old(self).node_refs,
            final(self).inner == (ProcessInner { is_frozen: final(self).inner.is_frozen, ..old(self).inner }),
            final(self).wf(),
            final(self).id == old(self).id,
            final(self).pid == old(self).pid,
            Process::dead_stays_dead(old(self), final(self)),
            old(self).inner.spec_txns_pending() ==> r == FreezeStep::Failed(Errno::Again) && !final(self).inner.is_frozen,
            !old(self).inner.spec_txns_pending() ==> r == FreezeStep::Done && final(self).inner.is_frozen == old(self).inner.is_frozen,
            final(self).inner.sync_recv == old(self).inner.sync_recv,
            final(self).inner.async_recv == old(self).inner.async_recv,
            final(self).inner.outstanding_txns == old(self).inner.outstanding_txns,
            final(self).inner.threads@ == old(self).inner.threads@,
    {
        if self.inner.txns_pending_locked() {
            self.inner.is_frozen = false;
            FreezeStep::Failed(Errno::Again)
        } else {
            FreezeStep::Done
        }
    }

    /// Starts a freeze request. `enable == 0` thaws at once. Otherwise the
    /// process is frozen and, while `timeout > 0` and transactions are in
    /// flight, the caller must wait for them (`Wait`) and report the wait's
    /// outcome to `freeze_wait_event`.
    pub fn ioctl_freeze(&mut self, enable: u32, timeout: u64) -> (r: FreezeStep)
        requires
            old(self).wf(),
        ensures
            final(self).node_refs == old(self).node_refs,
            final(self).inner == (ProcessInner { is_frozen: final(self).inner.is_frozen, sync_recv: final(self).inner.sync_recv, async_recv: final(self).inner.async_recv, ..old(self).inner }),
            final(self).wf(),
            final(self).id == old(self).id,
            final(self).pid == old(self).pid,
            Process::dead_stays_dead(old(self), final(self)),
            !final(self).inner.sync_recv,
            !final(self).inner.async_recv,
            final(self).inner.outstanding_txns == old(self).inner.outstanding_txns,
            final(self).inner.threads@ == old(self).inner.threads@,
            enable == 0 ==> r == FreezeStep::Done && !final(self).inner.is_frozen,
            enable != 0 && timeout > 0 && old(self).inner.outstanding_txns > 0 ==> r == (FreezeStep::Wait { remaining: timeout })
                && final(self).inner.is_frozen,
            enable != 0 && !(timeout > 0 && old(self).inner.outstanding_txns > 0) ==> {
                &&& old(self).inner.spec_txns_pending() ==> r == FreezeStep::Failed(Errno::Again) && !final(self).inner.is_frozen
                &&& !old(self).inner.spec_txns_pending() ==> r == FreezeStep::Done && final(self).inner.is_frozen
            },
    {
        self.inner.sync_recv = false;
        self.inner.async_recv = false;
        if enable == 0 {
            self.inner.is_frozen = false;
            return FreezeStep::Done;
        }
        self.inner.is_frozen = true;
        if timeout > 0 && self.inner.outstanding_txns > 0 {
            return FreezeStep::Wait { remaining: timeout };
        }
        self.finish_freeze()
    }

    /// Continues a freeze request after a wait ended with `event`.
    pub fn freeze_wait_event(&mut self, event: WaitEvent) -> (r: FreezeStep)
        requires
            old(self).wf(),
        ensures
            final(self).node_refs == old(self).node_refs,
            final(self).inner == (ProcessInner { is_frozen: final(self).inner.is_frozen, ..old(self).inner }),
            final(self).wf(),
            final(self).id == old(self).id,
            final(self).pid == old(self).pid,
            Process::dead_stays_dead(old(self), final(self)),
            final(self).inner.outstanding_txns == old(self).inner.outstanding_txns,
            final(self).inner.threads@ == old(self).inner.threads@,
            event == WaitEvent::Signal ==> r == FreezeStep::Failed(Errno::RestartSys) && !final(self).inner.is_frozen,
            (event matches WaitEvent::Woken { remaining } && remaining > 0 && old(self).inner.outstanding_txns > 0) ==> r
                == (FreezeStep::Wait { remaining: event->remaining }) && final(self).inner.is_frozen == old(self).inner.is_frozen,
            (event == WaitEvent::Timeout || (event matches WaitEvent::Woken { remaining } && (remaining == 0
                || old(self).inner.outstanding_txns == 0))) ==> {
                &&& old(self).inner.spec_txns_pending() ==> r == FreezeStep::Failed(Errno::Again) && !final(self).inner.is_frozen
                &&& !old(self).inner.spec_txns_pending() ==> r == FreezeStep::Done && final(self).inner.is_frozen == old(self).inner.is_frozen
            },
    {
        match event {
            WaitEvent::Signal => {
                self.inner.is_frozen = false;
                FreezeStep::Failed(Errno::RestartSys)
            },
            WaitEvent::Woken { remaining } => {
                if remaining > 0 && self.inner.outstanding_txns > 0 {
                    FreezeStep::Wait { remaining }
                } else {
                    self.finish_freeze()
                }
            },
            WaitEvent::Timeout => self.finish_freeze(),
        }
    }

    /// Marks deferred `bits` as wanted; returns whether the deferred work
    /// must be scheduled, which is when nothing was pending before.
    fn defer(&mut self, bits: u8) -> (r: bool)
        requires
            old(self).wf(),
        ensures
            final(self).node_refs == old(self).node_refs,
            final(self).inner == (ProcessInner { defer_work: final(self).inner.defer_work, ..old(self).inner }),
            final(self).wf(),
            final(self).id == old(self).id,
            final(self).pid == old(self).pid,
            Process::dead_stays_dead(old(self), final(self)),
            r == (old(self).inner.defer_work == 0),
            final(self).inner.defer_work == old(self).inner.defer_work | bits,
    {
        let should_schedule = self.inner.defer_work == 0;
        self.inner.defer_work = self.inner.defer_work | bits;
        should_schedule
    }

    /// The file was closed: asks for the deferred release.
    pub fn release(&mut self) -> (r: bool)
        requires
            old(self).wf(),
        ensures
            final(self).node_refs == old(self).node_refs,
            final(self).inner == (ProcessInner { defer_work: final(self).inner.defer_work, ..old(self).inner }),
            final(self).wf(),
            final(self).id == old(self).id,
            final(self).pid == old(self).pid,
            Process::dead_stays_dead(old(self), final(self)),
            r == (old(self).inner.defer_work == 0),
            final(self).inner.defer_work == old(self).inner.defer_work | PROC_DEFER_RELEASE,
    {
        self.defer(PROC_DEFER_RELEASE)
    }

    /// The file was flushed: asks for the deferred flush.
    pub fn flush(&mut self) -> (r: bool)
        requires
            old(self).wf(),
        ensures
            final(self).node_refs == old(self).node_refs,
            final(self).inner == (ProcessInner { defer_work: final(self).inner.defer_work, ..old(self).inner }),
            final(self).wf(),
            final(self).id == old(self).id,
            final(self).pid == old(self).pid,
            Process::dead_stays_dead(old(self), final(self)),
            r == (old(self).inner.defer_work == 0),
            final(self).inner.defer_work == old(self).inner.defer_work | PROC_DEFER_FLUSH,
    {
        self.defer(PROC_DEFER_FLUSH)
    }

    /// Takes the pending deferred bits, clearing them.
    pub fn take_deferred(&mut self) -> (r: u8)
        requires
            old(self).wf(),
        ensures
            final(self).node_refs == old(self).node_refs,
            final(self).inner == (ProcessInner { defer_work: final(self).inner.defer_work, ..old(self).inner }),
            final(self).wf(),
            final(self).id == old(self).id,
            final(self).pid == old(self).pid,
            Process::dead_stays_dead(old(self), final(self)),
            r == old(self).inner.defer_work,
            final(self).inner.defer_work == 0,
            final(self).inner.threads@ == old(self).inner.threads@,
            final(self).inner.work@ == old(self).inner.work@,
            final(self).inner.nodes@ == old(self).inner.nodes@,
            final(self).node_refs.by_handle@ == old(self).node_refs.by_handle@,
    {
        let d = self.inner.defer_work;
        self.inner.defer_work = 0;
        d
    }

    /// The poll mask: the thread's own mask, plus `POLLIN` when the thread
    /// polls for process work, has nothing else, and the queue is not empty.
    pub fn poll_mask(&self, thread_mask: u32, from_proc: bool) -> (r: u32)
        ensures
            thread_mask == 0 && from_proc && self.inner.work@.len() > 0 ==> r == POLLIN,
            !(thread_mask == 0 && from_proc && self.inner.work@.len() > 0) ==> r == thread_mask,
    {
        if thread_mask == 0 && from_proc && self.inner.work.len() > 0 {
            POLLIN
        } else {
            thread_mask
        }
    }

    /// The protocol version this driver speaks.
    pub fn version(&self) -> (r: i32)
        ensures
            r == BINDER_CURRENT_PROTOCOL_VERSION,
    {
        BINDER_CURRENT_PROTOCOL_VERSION
    }

    /// The threads that must be asked to leave their looper state.
    pub fn deferred_flush(&self) -> (r: Vec<i32>)
        ensures
            r@.to_set() == self.inner.threads@.dom(),
    {
        let mut out: Vec<i32> = Vec::new();
        for k in it: self.inner.threads.keys()
            invariant
                out@ == it.seq().unref().take(it.index() as int),
                it.seq().unref().to_set() == self.inner.threads@.dom(),
                it.index() == it.seq().len() ==> out@.to_set() == self.inner.threads@.dom(),
        {
            out.push(*k);
            proof {
                assert(out@ =~= it.seq().unref().take(it.index() + 1));
                assert(it.index() + 1 == it.seq().len() ==> out@ =~= it.seq().unref());
            }
        }
        out
    }

    /// Tears the process down, in this order: mark it dead and thawed, give
    /// up the manager role, leave the context, release the owned nodes,
    /// cancel queued work, free every buffer, drop every handle, release
    /// every thread and collect the death notifications that owned nodes
    /// still had to send. Everything the caller must still act on is in the
    /// report.
    pub fn deferred_release(&mut self, ctx: &mut Context) -> (r: ReleaseReport)
        requires
            old(self).wf(),
        ensures
            final(self).wf(),
            final(self).id == old(self).id,
            final(self).pid == old(self).pid,
            Process::dead_stays_dead(old(self), final(self)),
            final(self).inner.is_dead,
            !final(self).inner.is_frozen,
            !final(self).inner.sync_recv,
            !final(self).inner.async_recv,
            old(self).inner.is_manager ==> final(ctx).manager is None,
            !old(self).inner.is_manager ==> final(ctx).manager == old(ctx).manager,
            final(ctx).procs@ == old(ctx).procs@.filter(|p: u64| p != old(self).id),
            r.was_manager == old(self).inner.is_manager,
            final(self).inner.defer_work == old(self).inner.defer_work,
            r.released_nodes@.to_set() == old(self).inner.nodes@.dom(),
            r.released_nodes@.no_duplicates(),
            r.cancelled@ == old(self).inner.work@,
            final(self).inner.work@ == Seq::<Work>::empty(),
            final(self).inner.mapping is None,
            old(self).inner.mapping matches Some(m) ==> r.freed@ == m.alloc.ranges@ && r.address == m.address,
            old(self).inner.mapping is None ==> r.freed@ == Seq::<Reservation>::empty(),
            r.dropped_refs@.to_set() == old(self).node_refs.by_handle@.values(),
            final(self).node_refs.by_handle@ == Map::<u32, NodeRefInfo>::empty(),
            final(self).node_refs.by_node@ == Map::<u64, u32>::empty(),
            r.released_threads@.to_set() == old(self).inner.threads@.dom(),
            r.released_threads@.no_duplicates(),
            forall|x: DeathSubscriber| #[trigger] r.dead_notifications@.contains(x) ==> is_death_of(old(self).inner.nodes@, x),
            final(self).inner.threads@ == Map::<i32, Thread>::empty(),
            final(self).inner.ready_threads@ == Seq::<i32>::empty(),
            final(self).inner.nodes@ == Map::<u64, Node>::empty(),
            forall|p: u64, j: int| #[trigger] old(self).inner.nodes@.contains_key(p) && 0 <= j < old(self).inner.nodes@[p].deaths@.len()
                ==> r.dead_notifications@.contains(#[trigger] old(self).inner.nodes@[p].deaths@[j]),
    {
        self.inner.is_dead = true;
        self.inner.is_frozen = false;
        self.inner.sync_recv = false;
        self.inner.async_recv = false;
        let was_manager = self.inner.is_manager;
        if was_manager {
            ctx.unset_manager_node();
        }
        ctx.deregister_process(self.id);
        let released_nodes = node_ptrs(&self.inner.nodes);
        let mut cancelled: Vec<Work> = Vec::new();
        std::mem::swap(&mut cancelled, &mut self.inner.work);
        let mut address: usize = 0;
        let freed = match self.inner.mapping.take() {
            Some(mut m) => {
                address = m.address;
                m.alloc.take_all()
            },
            None => Vec::new(),
        };
        let dropped_refs = self.node_refs.take_all();
        let mut threads: BTreeMap<i32, Thread> = BTreeMap::new();
        std::mem::swap(&mut threads, &mut self.inner.threads);
        self.inner.ready_threads = Vec::new();
        let released_threads = thread_ids(&threads);
        let mut nodes: BTreeMap<u64, Node> = BTreeMap::new();
        std::mem::swap(&mut nodes, &mut self.inner.nodes);
        let dead_notifications = collect_deaths(&nodes);
        ReleaseReport {
            was_manager,
            released_nodes,
            cancelled,
            address,
            freed,
            dropped_refs,
            released_threads,
            dead_notifications,
        }
    }

    /// Runs the deferred work that `release` and `flush` asked for: first
    /// the flush, then the release.
    pub fn run_deferred(&mut self, ctx: &mut Context) -> (r: DeferredRun)
        requires
            old(self).wf(),
        ensures
            final(self).wf(),
            final(self).id == old(self).id,
            final(self).pid == old(self).pid,
            Process::dead_stays_dead(old(self), final(self)),
            old(self).inner.defer_work & PROC_DEFER_FLUSH != 0 <==> r.flushed is Some,
            r.flushed matches Some(ids) ==> ids@.to_set() == old(self).inner.threads@.dom(),
            old(self).inner.defer_work & PROC_DEFER_RELEASE != 0 <==> r.released is Some,
            final(self).inner.defer_work == 0,
            r.released is Some ==> final(self).inner.is_dead && final(self).node_refs.by_handle@.len() == 0,
            r.released is None ==> final(self).inner.defer_work == 0 && final(self).inner.threads@ == old(self).inner.threads@
                && final(self).node_refs.by_handle@ == old(self).node_refs.by_handle@,
    {
        let defer = self.take_deferred();
        let flushed = if defer & PROC_DEFER_FLUSH != 0 {
            Some(self.deferred_flush())
        } else {
            None
        };
        let released = if defer & PROC_DEFER_RELEASE != 0 {
            Some(self.deferred_release(ctx))
        } else {
            None
        };
        DeferredRun { flushed, released }
    }
}

} // verus!
