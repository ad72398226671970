//! Operations that span two processes: a process's references and death
//! registrations, and the nodes of the process that owns their targets.

use vstd::prelude::*;
use std::collections::BTreeMap;
use crate::context::Context;
use crate::errors::Errno;
use crate::lifecycle::ReleaseReport;
use crate::node::{DeathSubscriber, Node, RefLink};
use crate::node_ref::NodeRef;
use crate::node_refs::{insert_outcome, request_death_outcome, update_outcome, DeathRequest, NodeRefInfo};
use crate::process::{node_forgot, node_same_but_deaths, node_same_but_refs, NodeInfoForRef, Process};
use crate::work::Work;

verus! {

broadcast use {vstd::std_specs::btree::group_btree_axioms, vstd::laws_cmp::group_laws_cmp};

/// `owner` owns at `ptr` the node with global id `gid`.
pub open spec fn owns_node(owner: &Process, ptr: u64, gid: u64) -> bool {
    owner.inner.nodes@.contains_key(ptr) && owner.inner.nodes@[ptr].global_id == gid
}

/// `n` is `o` with the node at `ptr` changed by `f` only.
pub open spec fn only_node_changed(o: &Process, n: &Process, ptr: u64) -> bool {
    &&& n.id == o.id
    &&& n.pid == o.pid
    &&& n.node_refs == o.node_refs
    &&& n.inner == (crate::inner::ProcessInner { nodes: n.inner.nodes, ..o.inner })
    &&& n.inner.nodes@.dom() == o.inner.nodes@.dom()
    &&& forall|p: u64| #[trigger] o.inner.nodes@.contains_key(p) && p != ptr ==> n.inner.nodes@[p] == o.inner.nodes@[p]
}

/// The owner's node at `ptr` gained `link` in its refs list.
pub open spec fn linked_into(o: &Process, n: &Process, ptr: u64, link: RefLink) -> bool {
    &&& only_node_changed(o, n, ptr)
    &&& node_same_but_refs(o.inner.nodes@[ptr], n.inner.nodes@[ptr])
    &&& n.inner.nodes@[ptr].refs@ == o.inner.nodes@[ptr].refs@.push(link)
}

/// A count that does not fit in 32 bits reads as `u32::MAX`.
pub open spec fn clamp32(c: u64) -> u32 {
    if c <= u32::MAX {
        c as u32
    } else {
        u32::MAX
    }
}

fn clamp_count(c: u64) -> (r: u32)
    ensures
        r == clamp32(c),
{
    if c <= u32::MAX as u64 {
        c as u32
    } else {
        u32::MAX
    }
}

/// Records `node_ref` under a handle of `at`; a handle made for it is
/// linked into the refs list of its node, owned by `owner` at `owner_ptr`.
pub fn insert_handle_linked(
    at: &mut Process,
    owner: &mut Process,
    owner_ptr: u64,
    node_ref: NodeRef,
    is_manager: bool,
    debug_id: u64,
) -> (r: Result<u32, Errno>)
    requires
        old(at).wf(),
        old(owner).wf(),
        old(at).id != old(owner).id,
        owns_node(old(owner), owner_ptr, node_ref.node),
    ensures
        final(at).wf(),
        final(owner).wf(),
        final(at).id == old(at).id,
        final(at).pid == old(at).pid,
        final(at).inner == old(at).inner,
        Process::dead_stays_dead(old(at), final(at)),
        insert_outcome(&old(at).node_refs, &final(at).node_refs, node_ref, is_manager, old(at).inner.is_dead, debug_id, r),
        r is Ok && !old(at).node_refs.by_node@.contains_key(node_ref.node) ==> linked_into(
            old(owner),
            final(owner),
            owner_ptr,
            RefLink { process: old(at).id, handle: r->Ok_0 },
        ),
        !(r is Ok && !old(at).node_refs.by_node@.contains_key(node_ref.node)) ==> *final(owner) == *old(owner),
{
    let known = at.node_refs.by_node.contains_key(&node_ref.node);
    let r = at.insert_or_update_handle(node_ref, is_manager, debug_id);
    match r {
        Ok(handle) => {
            if !known {
                owner.link_node_ref(owner_ptr, RefLink { process: at.id, handle });
            }
        },
        Err(_) => {},
    }
    r
}

/// Applies a count change to `handle` of `at`, keeping the node's refs list
/// in step: an increment of handle 0 takes (and links) a reference on the
/// context manager's node, and a reference that drops its last count is
/// unlinked from its node, whose death registration from `at` is dropped.
/// `owner` owns the node concerned, at `owner_ptr`.
pub fn update_ref_linked(
    at: &mut Process,
    owner: &mut Process,
    owner_ptr: u64,
    ctx: &Context,
    handle: u32,
    inc: bool,
    strong: bool,
    debug_id: u64,
) -> (r: Result<Option<NodeRefInfo>, Errno>)
    requires
        old(at).wf(),
        old(owner).wf(),
        old(at).id != old(owner).id,
        inc && handle == 0 && ctx.manager is Some ==> ctx.manager->Some_0.owner == old(at).id || (
        ctx.manager->Some_0.owner == old(owner).id && owns_node(old(owner), owner_ptr, ctx.manager->Some_0.node)),
        !(inc && handle == 0 && ctx.manager is Some) && old(at).node_refs.by_handle@.contains_key(handle) ==> owns_node(
            old(owner),
            owner_ptr,
            old(at).node_refs.by_handle@[handle].node_ref.node,
        ),
    ensures
        final(at).wf(),
        final(owner).wf(),
        final(at).id == old(at).id,
        Process::dead_stays_dead(old(at), final(at)),
        inc && handle == 0 && ctx.manager is Some ==> {
            let m = ctx.manager->Some_0;
            if m.owner == old(at).id {
                &&& r == Err::<Option<NodeRefInfo>, Errno>(Errno::Inval)
                &&& *final(at) == *old(at)
                &&& *final(owner) == *old(owner)
            } else {
                let nr = NodeRef::spec_single(m.node, strong);
                &&& r == Ok::<Option<NodeRefInfo>, Errno>(None)
                &&& exists|res: Result<u32, Errno>|
                    {
                        &&& #[trigger] insert_outcome(&old(at).node_refs, &final(at).node_refs, nr, true, old(at).inner.is_dead, debug_id, res)
                        &&& res is Ok && !old(at).node_refs.by_node@.contains_key(m.node) ==> linked_into(
                            old(owner),
                            final(owner),
                            owner_ptr,
                            RefLink { process: old(at).id, handle: res->Ok_0 },
                        )
                        &&& !(res is Ok && !old(at).node_refs.by_node@.contains_key(m.node)) ==> *final(owner) == *old(owner)
                    }
            }
        },
        !(inc && handle == 0 && ctx.manager is Some) ==> {
            &&& r is Ok
            &&& update_outcome(&old(at).node_refs, &final(at).node_refs, handle, inc, strong, r->Ok_0)
            &&& match r->Ok_0 {
                Some(info) => {
                    let link = RefLink { process: old(at).id, handle };
                    let n0 = old(owner).inner.nodes@[owner_ptr];
                    let n1 = final(owner).inner.nodes@[owner_ptr];
                    &&& only_node_changed(old(owner), final(owner), owner_ptr)
                    &&& n1.refs@ == n0.refs@.filter(|l: RefLink| l != link)
                    &&& n1.ptr == n0.ptr && n1.cookie == n0.cookie && n1.global_id == n0.global_id
                    &&& n1.strong == n0.strong && n1.weak == n0.weak
                    &&& info.death is Some ==> n1.deaths@ == n0.deaths@.filter(
                        |d: DeathSubscriber| d != DeathSubscriber { process: old(at).id, cookie: info.death->Some_0.cookie },
                    )
                    &&& info.death is None ==> n1.deaths@ == n0.deaths@
                },
                None => *final(owner) == *old(owner),
            }
        },
{
    if inc && handle == 0 {
        match ctx.get_manager_node(strong) {
            Ok((nr, mowner)) => {
                if mowner == at.id {
                    return Err(Errno::Inval);
                }
                let _ = insert_handle_linked(at, owner, owner_ptr, nr, true, debug_id);
                return Ok(None);
            },
            Err(_) => {},
        }
    }
    let r = at.update_ref(ctx, handle, inc, strong, debug_id);
    match r {
        Ok(Some(info)) => {
            let id = at.id;
            owner.unlink_node_ref(owner_ptr, RefLink { process: id, handle });
            match info.death {
                Some(d) => {
                    owner.remove_node_death(owner_ptr, DeathSubscriber { process: id, cookie: d.cookie });
                },
                None => {},
            }
        },
        _ => {},
    }
    r
}

/// Registers a death notification with `cookie` through `handle` of `at`.
/// If the node's owner is already dead, the notification is queued to `at`
/// at once; otherwise it joins the death list of the node, owned by
/// `owner` at `owner_ptr`.
pub fn request_death_linked(
    at: &mut Process,
    owner: &mut Process,
    owner_ptr: u64,
    handle: u32,
    cookie: u64,
) -> (r: Result<DeathRequest, Errno>)
    requires
        old(at).wf(),
        old(owner).wf(),
        old(at).id != old(owner).id,
        old(at).node_refs.by_handle@.contains_key(handle) ==> owns_node(
            old(owner),
            owner_ptr,
            old(at).node_refs.by_handle@[handle].node_ref.node,
        ),
    ensures
        final(at).wf(),
        final(owner).wf(),
        final(at).id == old(at).id,
        Process::dead_stays_dead(old(at), final(at)),
        request_death_outcome(&old(at).node_refs, &final(at).node_refs, handle, cookie, old(owner).inner.is_dead, r),
        r == Ok::<DeathRequest, Errno>(DeathRequest::FiredImmediately) ==> exists|res: Result<crate::inner::Delivery, (Errno, crate::work::Work)>| #[trigger]
            crate::inner::push_outcome(&old(at).inner, &final(at).inner, crate::work::Work::DeadBinder { cookie }, res),
        r != Ok::<DeathRequest, Errno>(DeathRequest::FiredImmediately) ==> final(at).inner == old(at).inner,
        r == Ok::<DeathRequest, Errno>(DeathRequest::Registered) ==> {
            &&& only_node_changed(old(owner), final(owner), owner_ptr)
            &&& node_same_but_deaths(old(owner).inner.nodes@[owner_ptr], final(owner).inner.nodes@[owner_ptr])
            &&& final(owner).inner.nodes@[owner_ptr].deaths@ == old(owner).inner.nodes@[owner_ptr].deaths@.push(
                DeathSubscriber { process: old(at).id, cookie },
            )
        },
        r != Ok::<DeathRequest, Errno>(DeathRequest::Registered) ==> *final(owner) == *old(owner),
{
    let owner_dead = owner.inner.is_dead;
    let r = at.request_death(handle, cookie, owner_dead);
    match r {
        Ok(DeathRequest::Registered) => {
            owner.add_node_death(owner_ptr, DeathSubscriber { process: at.id, cookie });
        },
        _ => {},
    }
    r
}

/// Clears the death registration with `cookie` behind `handle` of `at`,
/// and drops it from the death list of the node, owned by `owner` at
/// `owner_ptr`. A completion owed to user space goes to thread `tid` of
/// `at` if it is looping.
pub fn clear_death_linked(
    at: &mut Process,
    owner: &mut Process,
    owner_ptr: u64,
    handle: u32,
    cookie: u64,
    tid: i32,
) -> (r: Result<(), Errno>)
    requires
        old(at).wf(),
        old(owner).wf(),
        old(at).id != old(owner).id,
        old(at).node_refs.by_handle@.contains_key(handle) ==> owns_node(
            old(owner),
            owner_ptr,
            old(at).node_refs.by_handle@[handle].node_ref.node,
        ),
    ensures
        final(at).wf(),
        final(owner).wf(),
        final(at).id == old(at).id,
        Process::dead_stays_dead(old(at), final(at)),
        exists|res: Result<bool, Errno>|
            {
                &&& #[trigger] crate::node_refs::clear_death_outcome(&old(at).node_refs, &final(at).node_refs, handle, cookie, res)
                &&& (res is Ok <==> r is Ok)
                &&& res matches Err(e) ==> r == Err::<(), Errno>(e)
            },
        r is Ok ==> {
            &&& only_node_changed(old(owner), final(owner), owner_ptr)
            &&& node_same_but_deaths(old(owner).inner.nodes@[owner_ptr], final(owner).inner.nodes@[owner_ptr])
            &&& final(owner).inner.nodes@[owner_ptr].deaths@ == old(owner).inner.nodes@[owner_ptr].deaths@.filter(
                |d: DeathSubscriber| d != DeathSubscriber { process: old(at).id, cookie },
            )
        },
        r is Err ==> *final(owner) == *old(owner),
{
    let r = at.clear_death(handle, cookie, tid);
    match r {
        Ok(()) => {
            owner.remove_node_death(owner_ptr, DeathSubscriber { process: at.id, cookie });
        },
        Err(_) => {},
    }
    r
}

/// Answers a manager's question about the node behind `info.handle` of
/// `at` with that node's counts, read from `owner` at `owner_ptr` (a count
/// above `u32::MAX` reads as `u32::MAX`). Errors as `get_node_info_from_ref`.
pub fn node_info_for_ref(at: &Process, owner: &Process, owner_ptr: u64, info: NodeInfoForRef) -> (r: Result<
    NodeInfoForRef,
    Errno,
>)
    requires
        at.node_refs.by_handle@.contains_key(info.handle) ==> owns_node(
            owner,
            owner_ptr,
            at.node_refs.by_handle@[info.handle].node_ref.node,
        ),
    ensures
        info.has_nonzero_fields() ==> r == Err::<NodeInfoForRef, Errno>(Errno::Inval),
        !info.has_nonzero_fields() && !at.inner.is_manager ==> r == Err::<NodeInfoForRef, Errno>(Errno::Perm),
        !info.has_nonzero_fields() && at.inner.is_manager ==> {
            if at.node_refs.by_handle@.contains_key(info.handle) && at.node_refs.by_handle@[info.handle].node_ref.strong != 0 {
                let n = owner.inner.nodes@[owner_ptr];
                r == Ok::<NodeInfoForRef, Errno>(
                    NodeInfoForRef {
                        handle: info.handle,
                        strong_count: clamp32(n.strong),
                        weak_count: clamp32(n.weak),
                        reserved1: 0,
                        reserved2: 0,
                        reserved3: 0,
                    },
                )
            } else {
                r == Err::<NodeInfoForRef, Errno>(Errno::Inval)
            }
        },
{
    match at.get_node_info_from_ref(info) {
        Ok(_) => {},
        Err(e) => {
            return Err(e);
        },
    }
    let node = owner.inner.nodes.get(&owner_ptr).unwrap();
    Ok(NodeInfoForRef {
        handle: info.handle,
        strong_count: clamp_count(node.strong),
        weak_count: clamp_count(node.weak),
        reserved1: 0,
        reserved2: 0,
        reserved3: 0,
    })
}

/// The death notifications of `subs` that go to process `id`, as cookies.
pub open spec fn cookies_for(subs: Seq<DeathSubscriber>, id: u64) -> Seq<u64> {
    subs.filter(|d: DeathSubscriber| d.process == id).map_values(|d: DeathSubscriber| d.cookie)
}

/// The work items that deliver these death notifications.
pub open spec fn dead_binder_items(cookies: Seq<u64>) -> Seq<Work> {
    cookies.map_values(|c: u64| Work::DeadBinder { cookie: c })
}

impl Process {
    /// Acts on the teardown of process `released`: its links and death
    /// registrations leave every owned node, and each death notification
    /// that the released process owed to this one is delivered. Returns the
    /// cookies delivered, in report order.
    pub fn apply_release_report(&mut self, released: u64, report: &ReleaseReport) -> (r: Vec<u64>)
        requires
            old(self).wf(),
        ensures
            final(self).wf(),
            final(self).id == old(self).id,
            final(self).pid == old(self).pid,
            Process::dead_stays_dead(old(self), final(self)),
            final(self).node_refs == old(self).node_refs,
            final(self).inner.nodes@.dom() == old(self).inner.nodes@.dom(),
            forall|p: u64| #[trigger] old(self).inner.nodes@.contains_key(p) ==> node_forgot(
                old(self).inner.nodes@[p],
                final(self).inner.nodes@[p],
                released,
            ),
            r@ == cookies_for(report.dead_notifications@, old(self).id),
            !old(self).inner.is_dead && old(self).inner.ready_threads@.len() == 0 ==> final(self).inner.work@
                == old(self).inner.work@ + dead_binder_items(r@),
    {
        self.forget_process(released);
        let ghost subs = report.dead_notifications@;
        let ghost idle = !old(self).inner.is_dead && old(self).inner.ready_threads@.len() == 0;
        let mut cookies: Vec<u64> = Vec::new();
        let mut i: usize = 0;
        while i < report.dead_notifications.len()
            invariant
                self.wf(),
                self.id == old(self).id,
                self.pid == old(self).pid,
                self.node_refs == old(self).node_refs,
                self.inner.nodes@.dom() == old(self).inner.nodes@.dom(),
                forall|p: u64| #[trigger] old(self).inner.nodes@.contains_key(p) ==> node_forgot(
                    old(self).inner.nodes@[p],
                    self.inner.nodes@[p],
                    released,
                ),
                subs == report.dead_notifications@,
                idle == (!old(self).inner.is_dead && old(self).inner.ready_threads@.len() == 0),
                0 <= i <= subs.len(),
                cookies@ == cookies_for(subs.take(i as int), old(self).id),
                self.inner.is_dead == old(self).inner.is_dead,
                old(self).inner.is_dead ==> self.inner.work@ == old(self).inner.work@,
                idle ==> self.inner.ready_threads@.len() == 0 && self.inner.work@ == old(self).inner.work@
                    + dead_binder_items(cookies@),
            decreases subs.len() - i,
        {
            let d = report.dead_notifications[i];
            proof {
                reveal_with_fuel(Seq::filter, 1);
                assert(subs.take(i + 1).drop_last() =~= subs.take(i as int));
            }
            if d.process == self.id {
                let ghost before = cookies@;
                let ghost work_before = self.inner.work@;
                let _ = self.inner.push_work(Work::DeadBinder { cookie: d.cookie });
                cookies.push(d.cookie);
                proof {
                    let f = subs.take(i + 1).filter(|x: DeathSubscriber| x.process == old(self).id);
                    let f0 = subs.take(i as int).filter(|x: DeathSubscriber| x.process == old(self).id);
                    assert(f =~= f0.push(d));
                    assert(f.map_values(|x: DeathSubscriber| x.cookie) =~= f0.map_values(|x: DeathSubscriber| x.cookie).push(d.cookie));
                    assert(dead_binder_items(cookies@) =~= dead_binder_items(before).push(Work::DeadBinder { cookie: d.cookie }));
                    if idle {
                        assert((old(self).inner.work@ + dead_binder_items(before)).push(Work::DeadBinder { cookie: d.cookie })
                            =~= old(self).inner.work@ + dead_binder_items(cookies@));
                    }
                }
            } else {
                proof {
                    let f = subs.take(i + 1).filter(|x: DeathSubscriber| x.process == old(self).id);
                    let f0 = subs.take(i as int).filter(|x: DeathSubscriber| x.process == old(self).id);
                    assert(f =~= f0);
                }
            }
            i = i + 1;
        }
        proof {
            assert(subs.take(subs.len() as int) =~= subs);
            if old(self).inner.is_dead {
                assert(self.inner.work@ =~= old(self).inner.work@.subrange(0, old(self).inner.work@.len() as int));
            }
        }
        cookies
    }
}

/// The node with global id `gid` in `nodes`, by its user pointer.
fn find_ptr(nodes: &BTreeMap<u64, Node>, gid: u64) -> (r: Option<u64>)
    requires
        forall|p: u64| #[trigger] nodes@.contains_key(p) ==> nodes@[p].ptr == p,
    ensures
        r matches Some(p) ==> nodes@.contains_key(p) && nodes@[p].global_id == gid,
        r is None ==> forall|p: u64| #[trigger] nodes@.contains_key(p) ==> nodes@[p].global_id != gid,
{
    for node in it: nodes.values()
        invariant
            it.seq().unref().to_set() == nodes@.values(),
            forall|p: u64| #[trigger] nodes@.contains_key(p) ==> nodes@[p].ptr == p,
            forall|k: int| 0 <= k < it.index() ==> (#[trigger] it.seq()[k]).global_id != gid,
            it.index() == it.seq().len() ==> forall|v: Node| #[trigger] nodes@.values().contains(v) ==> v.global_id != gid,
    {
        proof {
            assert(it.seq().unref()[it.index() as int] == *node);
            assert(it.seq().unref().contains(*node));
            assert(nodes@.values().contains(*node));
        }
        if node.global_id == gid {
            proof {
                let p = choose|p: u64| nodes@.contains_key(p) && nodes@[p] == *node;
                assert(nodes@[p].ptr == p);
            }
            return Some(node.ptr);
        }
        proof {
            assert forall|v: Node| #[trigger] nodes@.values().contains(v) && it.index() + 1 == it.seq().len() implies v.global_id != gid by {
                assert(it.seq().unref().to_set().contains(v));
                assert(it.seq().unref().contains(v));
                let k = choose|k: int| 0 <= k < it.seq().unref().len() && it.seq().unref()[k] == v;
                assert(*it.seq()[k] == v);
            }
        }
    }
    proof {
        assert forall|p: u64| #[trigger] nodes@.contains_key(p) implies nodes@[p].global_id != gid by {
            assert(nodes@.values().contains(nodes@[p]));
        }
    }
    None
}

/// The process of `procs` that owns the node with global id `gid`, and the
/// node's user pointer there.
pub fn find_node_owner(procs: &Vec<Process>, gid: u64) -> (r: Option<(usize, u64)>)
    requires
        forall|i: int| 0 <= i < procs@.len() ==> (#[trigger] procs@[i]).wf(),
    ensures
        r matches Some((i, p)) ==> i < procs@.len() && owns_node(&procs@[i as int], p, gid),
        r is None ==> forall|i: int, p: u64| 0 <= i < procs@.len() ==> !owns_node(&#[trigger] procs@[i], p, gid),
{
    let mut i: usize = 0;
    while i < procs.len()
        invariant
            0 <= i <= procs@.len(),
            forall|k: int| 0 <= k < procs@.len() ==> (#[trigger] procs@[k]).wf(),
            forall|k: int, p: u64| 0 <= k < i ==> !owns_node(&#[trigger] procs@[k], p, gid),
        decreases procs@.len() - i,
    {
        assert(procs@[i as int].wf());
        match find_ptr(&procs[i].inner.nodes, gid) {
            Some(p) => {
                return Some((i, p));
            },
            None => {},
        }
        i = i + 1;
    }
    None
}

} // verus!
