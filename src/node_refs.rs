//! The handle tables: a process's references to nodes of other processes.

use vstd::prelude::*;
use std::collections::BTreeMap;
use crate::errors::Errno;
use crate::node_ref::{NodeDeath, NodeRef};

verus! {

broadcast use {vstd::std_specs::btree::group_btree_axioms, vstd::laws_cmp::group_laws_cmp};

/// One reference that this process holds on a node of another process.
#[derive(Clone, Copy, Debug, PartialEq, Eq, Structural)]
pub struct NodeRefInfo {
    pub debug_id: u64,
    /// The counts this process holds on the node.
    pub node_ref: NodeRef,
    /// The death notification registered through this handle, if any.
    pub death: Option<NodeDeath>,
    /// The handle under which user space knows the node.
    pub handle: u32,
}

impl NodeRefInfo {
    pub fn new(node_ref: NodeRef, handle: u32, debug_id: u64) -> (r: NodeRefInfo)
        ensures
            r == (NodeRefInfo { debug_id, node_ref, death: None, handle }),
    {
        NodeRefInfo { debug_id, node_ref, death: None, handle }
    }
}

/// How a death notification request was handled.
#[derive(Clone, Copy, Debug, PartialEq, Eq, Structural)]
pub enum DeathRequest {
    /// A registration already existed for the handle; nothing changed.
    AlreadyRegistered,
    /// The registration now waits for the owner of the node to die.
    Registered,
    /// The owner is already dead: the notification must be delivered at once.
    FiredImmediately,
}

/// The first handle value that a new reference may take.
pub open spec fn handle_start(is_manager: bool) -> u32 {
    if is_manager {
        0
    } else {
        1
    }
}

/// `h` is the smallest value at least `start` that `used` does not hold.
pub open spec fn is_lowest_free(used: Set<u32>, start: u32, h: u32) -> bool {
    &&& start <= h
    &&& !used.contains(h)
    &&& forall|j: u32| start <= j < h ==> used.contains(j)
}

/// Every value from `start` up to `u32::MAX` is taken.
pub open spec fn all_taken_from(used: Set<u32>, start: u32) -> bool {
    forall|j: u32| start <= j ==> used.contains(j)
}

/// What `insert_or_update_handle` does, from the tables `o` to the tables `n`.
pub open spec fn insert_outcome(
    o: &ProcessNodeRefs,
    n: &ProcessNodeRefs,
    node_ref: NodeRef,
    is_manager: bool,
    process_dead: bool,
    debug_id: u64,
    r: Result<u32, Errno>,
) -> bool {
    let start = handle_start(is_manager);
    if o.by_node@.contains_key(node_ref.node) {
        let h = o.by_node@[node_ref.node];
        let info = o.by_handle@[h];
        &&& r == Ok::<u32, Errno>(h)
        &&& n.by_handle@ =~= o.by_handle@.insert(
            h,
            NodeRefInfo { node_ref: info.node_ref.absorbed(node_ref), ..info },
        )
        &&& n.by_node@ =~= o.by_node@
    } else if all_taken_from(o.handles(), start) {
        &&& r == Err::<u32, Errno>(Errno::NoMem)
        &&& n.by_handle@ =~= o.by_handle@
        &&& n.by_node@ =~= o.by_node@
    } else if process_dead {
        &&& r == Err::<u32, Errno>(Errno::Srch)
        &&& n.by_handle@ =~= o.by_handle@
        &&& n.by_node@ =~= o.by_node@
    } else {
        exists|h: u32|
            {
                &&& r == Ok::<u32, Errno>(h)
                &&& is_lowest_free(o.handles(), start, h)
                &&& n.by_handle@ =~= o.by_handle@.insert(
                    h,
                    NodeRefInfo { debug_id, node_ref, death: None, handle: h },
                )
                &&& n.by_node@ =~= o.by_node@.insert(node_ref.node, h)
            }
    }
}

/// What `update_ref` does, from the tables `o` to the tables `n`.
pub open spec fn update_outcome(
    o: &ProcessNodeRefs,
    n: &ProcessNodeRefs,
    handle: u32,
    inc: bool,
    strong: bool,
    r: Option<NodeRefInfo>,
) -> bool {
    if !o.by_handle@.contains_key(handle) {
        &&& r is None
        &&& n.by_handle@ =~= o.by_handle@
        &&& n.by_node@ =~= o.by_node@
    } else {
        let info = o.by_handle@[handle];
        let updated = NodeRefInfo { node_ref: info.node_ref.updated(inc, strong), ..info };
        if info.node_ref.update_drops_last(inc, strong) {
            &&& r == Some(updated)
            &&& n.by_handle@ =~= o.by_handle@.remove(handle)
            &&& n.by_node@ =~= o.by_node@.remove(info.node_ref.node)
        } else {
            &&& r is None
            &&& n.by_handle@ =~= o.by_handle@.insert(handle, updated)
            &&& n.by_node@ =~= o.by_node@
        }
    }
}

/// What `request_death` does, from the tables `o` to the tables `n`.
pub open spec fn request_death_outcome(
    o: &ProcessNodeRefs,
    n: &ProcessNodeRefs,
    handle: u32,
    cookie: u64,
    owner_dead: bool,
    r: Result<DeathRequest, Errno>,
) -> bool {
    &&& n.by_node@ =~= o.by_node@
    &&& if !o.by_handle@.contains_key(handle) {
        r == Err::<DeathRequest, Errno>(Errno::Inval) && n.by_handle@ =~= o.by_handle@
    } else if o.by_handle@[handle].death is Some {
        r == Ok::<DeathRequest, Errno>(DeathRequest::AlreadyRegistered) && n.by_handle@
            =~= o.by_handle@
    } else {
        &&& r == Ok::<DeathRequest, Errno>(
            if owner_dead {
                DeathRequest::FiredImmediately
            } else {
                DeathRequest::Registered
            },
        )
        &&& n.by_handle@ =~= o.by_handle@.insert(
            handle,
            NodeRefInfo {
                death: Some(NodeDeath::spec_new(cookie, owner_dead)),
                ..o.by_handle@[handle]
            },
        )
    }
}

/// What `clear_death` does, from the tables `o` to the tables `n`.
pub open spec fn clear_death_outcome(
    o: &ProcessNodeRefs,
    n: &ProcessNodeRefs,
    handle: u32,
    cookie: u64,
    r: Result<bool, Errno>,
) -> bool {
    &&& n.by_node@ =~= o.by_node@
    &&& match o.by_handle@.get(handle) {
        Some(info) => match info.death {
            Some(d) => if d.cookie == cookie {
                &&& r == Ok::<bool, Errno>(d.clear_needs_queueing())
                &&& n.by_handle@ =~= o.by_handle@.insert(handle, NodeRefInfo { death: None, ..info })
            } else {
                r == Err::<bool, Errno>(Errno::Inval) && n.by_handle@ =~= o.by_handle@
            },
            None => r == Err::<bool, Errno>(Errno::Inval) && n.by_handle@ =~= o.by_handle@,
        },
        None => r == Err::<bool, Errno>(Errno::Inval) && n.by_handle@ =~= o.by_handle@,
    }
}

/// The references of a process to nodes of other processes, indexed by
/// handle and by the node's global id.
pub struct ProcessNodeRefs {
    pub by_handle: BTreeMap<u32, NodeRefInfo>,
    pub by_node: BTreeMap<u64, u32>,
}

impl ProcessNodeRefs {
    /// The two indexes describe the same set of (handle, node) pairs.
    pub open spec fn wf(&self) -> bool {
        &&& forall|h: u32| #[trigger]
            self.by_handle@.contains_key(h) ==> {
                let info = self.by_handle@[h];
                &&& info.handle == h
                &&& self.by_node@.contains_key(info.node_ref.node)
                &&& self.by_node@[info.node_ref.node] == h
            }
        &&& forall|g: u64| #[trigger]
            self.by_node@.contains_key(g) ==> {
                &&& self.by_handle@.contains_key(self.by_node@[g])
                &&& self.by_handle@[self.by_node@[g]].node_ref.node == g
            }
    }

    /// The (handle, global id) pairs recorded in the handle index.
    pub open spec fn handle_pairs(&self) -> Set<(u32, u64)> {
        Set::new(
            |p: (u32, u64)|
                self.by_handle@.contains_key(p.0) && self.by_handle@[p.0].node_ref.node == p.1,
        )
    }

    /// The (handle, global id) pairs recorded in the node index.
    pub open spec fn node_pairs(&self) -> Set<(u32, u64)> {
        Set::new(|p: (u32, u64)| self.by_node@.contains_key(p.1) && self.by_node@[p.1] == p.0)
    }

    pub open spec fn handles(&self) -> Set<u32> {
        self.by_handle@.dom()
    }

    pub fn new() -> (r: ProcessNodeRefs)
        ensures
            r.wf(),
            r.by_handle@ == Map::<u32, NodeRefInfo>::empty(),
            r.by_node@ == Map::<u64, u32>::empty(),
    {
        ProcessNodeRefs { by_handle: BTreeMap::new(), by_node: BTreeMap::new() }
    }

    /// The smallest unused handle value at least `start`, if any is left.
    pub fn lowest_free_handle(&self, start: u32) -> (r: Option<u32>)
        ensures
            match r {
                Some(h) => is_lowest_free(self.handles(), start, h),
                None => all_taken_from(self.handles(), start),
            },
    {
        let mut target: u32 = start;
        loop
            invariant
                start <= target,
                forall|j: u32| start <= j < target ==> self.handles().contains(j),
            decreases u32::MAX - target,
        {
            if !self.by_handle.contains_key(&target) {
                return Some(target);
            }
            if target == u32::MAX {
                assert forall|j: u32| start <= j implies self.handles().contains(j) by {
                    if j < target {
                    } else {
                        assert(j == target);
                    }
                }
                return None;
            }
            target = target + 1;
        }
    }

    /// Records `node_ref` under a handle and returns that handle.
    ///
    /// A node already known keeps its handle and takes over the new counts.
    /// Otherwise the smallest free handle at least `handle_start(is_manager)`
    /// is chosen; `NoMem` when none is left, `Srch` when the process is dead.
    pub fn insert_or_update_handle(
        &mut self,
        node_ref: NodeRef,
        is_manager: bool,
        process_dead: bool,
        debug_id: u64,
    ) -> (r: Result<u32, Errno>)
        requires
            old(self).wf(),
        ensures
            final(self).wf(),
            insert_outcome(old(self), final(self), node_ref, is_manager, process_dead, debug_id, r),
    {
        let gid = node_ref.node;
        match self.by_node.get(&gid) {
            Some(h) => {
                let handle = *h;
                let mut info = self.by_handle.remove(&handle).unwrap();
                info.node_ref.absorb(node_ref);
                self.by_handle.insert(handle, info);
                proof {
                    assert forall|g: u64| #[trigger]
                        self.by_node@.contains_key(g) implies self.by_handle@.contains_key(
                        self.by_node@[g],
                    ) && self.by_handle@[self.by_node@[g]].node_ref.node == g by {
                        assert(old(self).by_handle@.contains_key(old(self).by_node@[g]));
                    }
                }
                return Ok(handle);
            },
            None => {},
        }
        let start: u32 = if is_manager {
            0
        } else {
            1
        };
        let target = match self.lowest_free_handle(start) {
            Some(t) => t,
            None => {
                return Err(Errno::NoMem);
            },
        };
        if process_dead {
            return Err(Errno::Srch);
        }
        let info = NodeRefInfo::new(node_ref, target, debug_id);
        self.by_node.insert(gid, target);
        self.by_handle.insert(target, info);
        proof {
            assert forall|h: u32| #[trigger] self.by_handle@.contains_key(h) implies {
                let info = self.by_handle@[h];
                &&& info.handle == h
                &&& self.by_node@.contains_key(info.node_ref.node)
                &&& self.by_node@[info.node_ref.node] == h
            } by {
                if h != target {
                    assert(old(self).by_handle@.contains_key(h));
                }
            }
            assert forall|g: u64| #[trigger] self.by_node@.contains_key(g) implies {
                &&& self.by_handle@.contains_key(self.by_node@[g])
                &&& self.by_handle@[self.by_node@[g]].node_ref.node == g
            } by {
                if g != gid {
                    assert(old(self).by_node@.contains_key(g));
                    assert(old(self).by_handle@.contains_key(old(self).by_node@[g]));
                }
            }
        }
        Ok(target)
    }

    /// A new single count of the given kind on the node behind `handle`.
    pub fn get_node_from_handle(&self, handle: u32, strong: bool) -> (r: Result<NodeRef, Errno>)
        ensures
            !self.by_handle@.contains_key(handle) ==> r == Err::<NodeRef, Errno>(Errno::NoEnt),
            self.by_handle@.contains_key(handle) ==> {
                let nr = self.by_handle@[handle].node_ref;
                &&& strong && nr.strong == 0 ==> r == Err::<NodeRef, Errno>(Errno::Inval)
                &&& !(strong && nr.strong == 0) ==> r == Ok::<NodeRef, Errno>(
                    NodeRef::spec_single(nr.node, strong),
                )
            },
    {
        match self.by_handle.get(&handle) {
            None => Err(Errno::NoEnt),
            Some(info) => {
                if strong && info.node_ref.strong == 0 {
                    Err(Errno::Inval)
                } else {
                    Ok(info.node_ref.clone_ref(strong))
                }
            },
        }
    }

    /// Applies one increment or decrement to the reference behind `handle`.
    ///
    /// When the reference drops its last count, it leaves both indexes and
    /// is returned (with its final counts) so that the caller can detach it
    /// from the node and clear its death registration.
    pub fn update_ref(&mut self, handle: u32, inc: bool, strong: bool) -> (r: Option<NodeRefInfo>)
        requires
            old(self).wf(),
        ensures
            final(self).wf(),
            update_outcome(old(self), final(self), handle, inc, strong, r),
    {
        let mut info = match self.by_handle.remove(&handle) {
            None => {
                return None;
            },
            Some(info) => info,
        };
        let gid = info.node_ref.node;
        if info.node_ref.update(inc, strong) {
            self.by_node.remove(&gid);
            proof {
                assert forall|h: u32| #[trigger] self.by_handle@.contains_key(h) implies {
                    let i = self.by_handle@[h];
                    &&& i.handle == h
                    &&& self.by_node@.contains_key(i.node_ref.node)
                    &&& self.by_node@[i.node_ref.node] == h
                } by {
                    assert(old(self).by_handle@.contains_key(h));
                }
                assert forall|g: u64| #[trigger] self.by_node@.contains_key(g) implies {
                    &&& self.by_handle@.contains_key(self.by_node@[g])
                    &&& self.by_handle@[self.by_node@[g]].node_ref.node == g
                } by {
                    assert(old(self).by_node@.contains_key(g));
                }
            }
            Some(info)
        } else {
            self.by_handle.insert(handle, info);
            proof {
                assert forall|g: u64| #[trigger] self.by_node@.contains_key(g) implies {
                    &&& self.by_handle@.contains_key(self.by_node@[g])
                    &&& self.by_handle@[self.by_node@[g]].node_ref.node == g
                } by {
                    assert(old(self).by_handle@.contains_key(old(self).by_node@[g]));
                }
            }
            None
        }
    }

    /// Registers a death notification with `cookie` through `handle`.
    ///
    /// `owner_dead` tells whether the owner of the node has already died; the
    /// registration then records the death as delivered.
    pub fn request_death(&mut self, handle: u32, cookie: u64, owner_dead: bool) -> (r: Result<
        DeathRequest,
        Errno,
    >)
        requires
            old(self).wf(),
        ensures
            final(self).wf(),
            request_death_outcome(old(self), final(self), handle, cookie, owner_dead, r),
    {
        let mut info = match self.by_handle.remove(&handle) {
            None => {
                return Err(Errno::Inval);
            },
            Some(info) => info,
        };
        if info.death.is_some() {
            self.by_handle.insert(handle, info);
            proof {
                assert(self.by_handle@ =~= old(self).by_handle@);
            }
            return Ok(DeathRequest::AlreadyRegistered);
        }
        info.death = Some(NodeDeath::new(cookie, owner_dead));
        self.by_handle.insert(handle, info);
        proof {
            assert forall|g: u64| #[trigger] self.by_node@.contains_key(g) implies {
                &&& self.by_handle@.contains_key(self.by_node@[g])
                &&& self.by_handle@[self.by_node@[g]].node_ref.node == g
            } by {
                assert(old(self).by_handle@.contains_key(old(self).by_node@[g]));
            }
        }
        if owner_dead {
            Ok(DeathRequest::FiredImmediately)
        } else {
            Ok(DeathRequest::Registered)
        }
    }

    /// Clears the death registration with `cookie` behind `handle`; returns
    /// whether a completion item is owed to user space.
    pub fn clear_death(&mut self, handle: u32, cookie: u64) -> (r: Result<bool, Errno>)
        requires
            old(self).wf(),
        ensures
            final(self).wf(),
            clear_death_outcome(old(self), final(self), handle, cookie, r),
    {
        let mut info = match self.by_handle.remove(&handle) {
            None => {
                return Err(Errno::Inval);
            },
            Some(info) => info,
        };
        let mut death = match info.death {
            None => {
                self.by_handle.insert(handle, info);
                proof {
                    assert(self.by_handle@ =~= old(self).by_handle@);
                }
                return Err(Errno::Inval);
            },
            Some(d) => d,
        };
        if death.cookie != cookie {
            self.by_handle.insert(handle, info);
            proof {
                assert(self.by_handle@ =~= old(self).by_handle@);
            }
            return Err(Errno::Inval);
        }
        info.death = None;
        self.by_handle.insert(handle, info);
        proof {
            assert forall|g: u64| #[trigger] self.by_node@.contains_key(g) implies {
                &&& self.by_handle@.contains_key(self.by_node@[g])
                &&& self.by_handle@[self.by_node@[g]].node_ref.node == g
            } by {
                assert(old(self).by_handle@.contains_key(old(self).by_node@[g]));
            }
        }
        Ok(death.set_cleared())
    }

    /// Empties both indexes and hands back every reference that was recorded.
    pub fn take_all(&mut self) -> (r: Vec<NodeRefInfo>)
        ensures
            final(self).wf(),
            final(self).by_handle@ == Map::<u32, NodeRefInfo>::empty(),
            final(self).by_node@ == Map::<u64, u32>::empty(),
            r@.to_set() == old(self).by_handle@.values(),
            r@.len() == old(self).by_handle@.dom().len(),
    {
        let mut taken: BTreeMap<u32, NodeRefInfo> = BTreeMap::new();
        std::mem::swap(&mut taken, &mut self.by_handle);
        self.by_node.clear();
        let mut out: Vec<NodeRefInfo> = Vec::new();
        for info in it: taken.values()
            invariant
                out@ == it.seq().unref().take(it.index() as int),
                it.seq().unref().to_set() == taken@.values(),
                it.seq().len() == taken@.dom().len(),
                it.index() == it.seq().len() ==> out@.to_set() == taken@.values() && out@.len()
                    == taken@.dom().len(),
        {
            out.push(*info);
            proof {
                assert(out@ =~= it.seq().unref().take(it.index() + 1));
                assert(it.index() + 1 == it.seq().len() ==> out@ =~= it.seq().unref());
            }
        }
        out
    }
}

} // verus!
