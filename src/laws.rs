//! Properties that relate several operations on the handle tables.

use vstd::prelude::*;
use crate::errors::Errno;
use crate::node::RefLink;
use crate::node_ref::{NodeDeath, NodeRef};
use crate::node_refs::{
    clear_death_outcome, insert_outcome, request_death_outcome, update_outcome, DeathRequest,
    NodeRefInfo, ProcessNodeRefs,
};

verus! {

/// The handle index and the node index of well-formed tables record the
/// same (handle, global id) pairs.
pub proof fn lemma_indexes_agree(refs: &ProcessNodeRefs)
    requires
        refs.wf(),
    ensures
        refs.handle_pairs() == refs.node_pairs(),
{
    assert forall|p: (u32, u64)| refs.handle_pairs().contains(p) implies refs.node_pairs().contains(p) by {
        assert(refs.by_handle@.contains_key(p.0));
    }
    assert forall|p: (u32, u64)| refs.node_pairs().contains(p) implies refs.handle_pairs().contains(p) by {
        assert(refs.by_node@.contains_key(p.1));
    }
    assert(refs.handle_pairs() =~= refs.node_pairs());
}

/// In well-formed tables, each reference is indexed under the global id of
/// the node it points to, and no other handle points to that node.
pub proof fn lemma_one_handle_per_node(refs: &ProcessNodeRefs, h: u32, h2: u32)
    requires
        refs.wf(),
        refs.by_handle@.contains_key(h),
        refs.by_handle@.contains_key(h2),
        refs.by_handle@[h2].node_ref.node == refs.by_handle@[h].node_ref.node,
    ensures
        refs.by_node@[refs.by_handle@[h].node_ref.node] == h,
        h2 == h,
{
}

/// A handle 0 that did not exist before is created only on the manager's
/// path, and for the node asked for.
pub proof fn lemma_handle_zero_only_for_manager(
    o: &ProcessNodeRefs,
    n: &ProcessNodeRefs,
    node_ref: NodeRef,
    is_manager: bool,
    process_dead: bool,
    debug_id: u64,
    r: Result<u32, Errno>,
)
    requires
        o.wf(),
        insert_outcome(o, n, node_ref, is_manager, process_dead, debug_id, r),
        !o.by_handle@.contains_key(0),
        n.by_handle@.contains_key(0),
    ensures
        is_manager,
        n.by_handle@[0].node_ref.node == node_ref.node,
{
    if o.by_node@.contains_key(node_ref.node) {
        assert(o.by_handle@.contains_key(o.by_node@[node_ref.node]));
    }
}

/// Asking twice for a death notification on one handle with one cookie:
/// the second request finds the first and changes nothing.
pub proof fn lemma_request_death_twice(
    s0: &ProcessNodeRefs,
    s1: &ProcessNodeRefs,
    s2: &ProcessNodeRefs,
    handle: u32,
    cookie: u64,
    dead1: bool,
    dead2: bool,
    r1: Result<DeathRequest, Errno>,
    r2: Result<DeathRequest, Errno>,
)
    requires
        request_death_outcome(s0, s1, handle, cookie, dead1, r1),
        r1 is Ok,
        request_death_outcome(s1, s2, handle, cookie, dead2, r2),
    ensures
        r2 == Ok::<DeathRequest, Errno>(DeathRequest::AlreadyRegistered),
        s2.by_handle@ == s1.by_handle@,
        s2.by_node@ == s1.by_node@,
{
}

/// Recording two references to one node yields one handle, whose counts
/// are those of the first plus those of the second.
pub proof fn lemma_insert_same_node_twice(
    s0: &ProcessNodeRefs,
    s1: &ProcessNodeRefs,
    s2: &ProcessNodeRefs,
    a: NodeRef,
    b: NodeRef,
    is_manager: bool,
    dead: bool,
    id1: u64,
    id2: u64,
    r1: Result<u32, Errno>,
    r2: Result<u32, Errno>,
)
    requires
        s1.wf(),
        insert_outcome(s0, s1, a, is_manager, dead, id1, r1),
        r1 is Ok,
        b.node == a.node,
        insert_outcome(s1, s2, b, is_manager, dead, id2, r2),
    ensures
        r2 == r1,
        s2.handles() == s1.handles(),
        s2.by_node@ == s1.by_node@,
        s2.by_handle@[r1->Ok_0].node_ref == s1.by_handle@[r1->Ok_0].node_ref.absorbed(b),
        forall|h: u32| #[trigger] s2.by_handle@.contains_key(h) && s2.by_handle@[h].node_ref.node == a.node ==> h == r1->Ok_0,
{
    let h = r1->Ok_0;
    assert(s1.by_node@.contains_key(a.node) && s1.by_node@[a.node] == h);
    assert(s1.by_handle@.contains_key(h));
    assert(s2.handles() =~= s1.handles());
    assert forall|h2: u32| #[trigger] s2.by_handle@.contains_key(h2) && s2.by_handle@[h2].node_ref.node == a.node implies h2 == h by {
        if h2 != h {
            assert(s1.by_handle@.contains_key(h2));
        }
    }
}

/// Clearing a death notification and then asking again on the same handle
/// succeeds and installs a fresh registration.
pub proof fn lemma_clear_then_request_death(
    s0: &ProcessNodeRefs,
    s1: &ProcessNodeRefs,
    s2: &ProcessNodeRefs,
    handle: u32,
    cookie: u64,
    new_cookie: u64,
    owner_dead: bool,
    r1: Result<bool, Errno>,
    r2: Result<DeathRequest, Errno>,
)
    requires
        clear_death_outcome(s0, s1, handle, cookie, r1),
        r1 is Ok,
        request_death_outcome(s1, s2, handle, new_cookie, owner_dead, r2),
    ensures
        r2 is Ok,
        r2 != Ok::<DeathRequest, Errno>(DeathRequest::AlreadyRegistered),
        s2.by_handle@[handle].death == Some(NodeDeath::spec_new(new_cookie, owner_dead)),
{
}

/// The counts of `base` after taking over each reference of `rs` in turn.
pub open spec fn absorbed_all(base: NodeRef, rs: Seq<NodeRef>) -> NodeRef
    decreases rs.len(),
{
    if rs.len() == 0 {
        base
    } else {
        absorbed_all(base, rs.drop_last()).absorbed(rs.last())
    }
}

/// Recording references to one node again and again keeps the one handle
/// the first recording chose, whose counts take over those of every later
/// reference.
pub proof fn lemma_insert_same_node_repeatedly(
    states: Seq<ProcessNodeRefs>,
    refs: Seq<NodeRef>,
    results: Seq<Result<u32, Errno>>,
    ids: Seq<u64>,
    is_manager: bool,
    dead: bool,
)
    requires
        refs.len() >= 1,
        states.len() == refs.len() + 1,
        results.len() == refs.len(),
        ids.len() == refs.len(),
        forall|i: int| 0 <= i < states.len() ==> (#[trigger] states[i]).wf(),
        forall|i: int|
            0 <= i < refs.len() ==> insert_outcome(
                &states[i],
                &states[i + 1],
                #[trigger] refs[i],
                is_manager,
                dead,
                ids[i],
                results[i],
            ),
        forall|i: int| 0 <= i < refs.len() ==> (#[trigger] refs[i]).node == refs[0].node,
        results[0] is Ok,
    ensures
        forall|i: int| 0 <= i < results.len() ==> #[trigger] results[i] == results[0],
        states.last().by_handle@.contains_key(results[0]->Ok_0),
        states.last().by_handle@[results[0]->Ok_0].node_ref == absorbed_all(
            states[1].by_handle@[results[0]->Ok_0].node_ref,
            refs.drop_first(),
        ),
        forall|h: u32| #[trigger] states.last().by_handle@.contains_key(h) && states.last().by_handle@[h].node_ref.node
            == refs[0].node ==> h == results[0]->Ok_0,
    decreases refs.len(),
{
    let n = refs.len() as int;
    let h = results[0]->Ok_0;
    assert(insert_outcome(&states[0], &states[1], refs[0], is_manager, dead, ids[0], results[0]));
    if n == 1 {
        assert(refs.drop_first() =~= Seq::<NodeRef>::empty());
        if states[0].by_node@.contains_key(refs[0].node) {
            assert(states[0].by_handle@.contains_key(states[0].by_node@[refs[0].node]));
        }
        assert(states[1].by_handle@.contains_key(h));
        assert forall|h2: u32| #[trigger] states.last().by_handle@.contains_key(h2) && states.last().by_handle@[h2].node_ref.node
            == refs[0].node implies h2 == h by {
            lemma_one_handle_per_node(&states[1], h, h2);
        }
    } else {
        let s2 = states.take(n);
        let r2 = refs.take(n - 1);
        let res2 = results.take(n - 1);
        let id2 = ids.take(n - 1);
        assert forall|i: int| 0 <= i < s2.len() implies (#[trigger] s2[i]).wf() by {
            assert(s2[i] == states[i]);
        }
        assert forall|i: int| 0 <= i < r2.len() implies insert_outcome(
            &s2[i],
            &s2[i + 1],
            #[trigger] r2[i],
            is_manager,
            dead,
            id2[i],
            res2[i],
        ) by {
            assert(s2[i] == states[i] && s2[i + 1] == states[i + 1] && r2[i] == refs[i]);
            assert(insert_outcome(&states[i], &states[i + 1], refs[i], is_manager, dead, ids[i], results[i]));
        }
        assert forall|i: int| 0 <= i < r2.len() implies (#[trigger] r2[i]).node == r2[0].node by {
            assert(r2[i] == refs[i]);
        }
        lemma_insert_same_node_repeatedly(s2, r2, res2, id2, is_manager, dead);
        assert(s2.last() == states[n - 1]);
        assert(res2[0] == results[0]);
        assert(insert_outcome(&states[n - 1], &states[n], refs[n - 1], is_manager, dead, ids[n - 1], results[n - 1]));
        assert(states[0].wf() && insert_outcome(&states[0], &states[1], refs[0], is_manager, dead, ids[0], results[0]));
        assert(insert_outcome(&states[n - 2], &states[n - 1], refs[n - 2], is_manager, dead, ids[n - 2], results[n - 2]));
        assert(res2[n - 2] == results[n - 2]);
        lemma_insert_same_node_twice(
            &states[n - 2],
            &states[n - 1],
            &states[n],
            refs[n - 2],
            refs[n - 1],
            is_manager,
            dead,
            ids[n - 2],
            ids[n - 1],
            results[n - 2],
            results[n - 1],
        );
        assert forall|i: int| 0 <= i < results.len() implies #[trigger] results[i] == results[0] by {
            if i < n - 1 {
                assert(res2[i] == results[i]);
            }
        }
        assert(refs.drop_first().drop_last() =~= r2.drop_first());
        assert(refs.drop_first().last() == refs[n - 1]);
        assert(s2[1] == states[1]);
        assert(states.last() == states[n]);
    }
}

/// Every handle of process `id` is linked into the list of the node it
/// names, and every link of `id` in a node's list names a handle of `id`
/// whose node is that node. `lists` maps global ids to refs lists.
pub open spec fn linked(id: u64, refs: &ProcessNodeRefs, lists: Map<u64, Seq<RefLink>>) -> bool {
    &&& forall|h: u32| #[trigger]
        refs.by_handle@.contains_key(h) ==> {
            let g = refs.by_handle@[h].node_ref.node;
            &&& lists.contains_key(g)
            &&& lists[g].contains(RefLink { process: id, handle: h })
        }
    &&& forall|g: u64, l: RefLink|
        lists.contains_key(g) && #[trigger] lists[g].contains(l) && l.process == id ==> {
            &&& refs.by_handle@.contains_key(l.handle)
            &&& refs.by_handle@[l.handle].node_ref.node == g
        }
}

/// While the links are kept, each reference of a process sits in the refs
/// list of exactly one node: the one whose global id indexes it.
pub proof fn lemma_linked_in_one_list(
    id: u64,
    refs: &ProcessNodeRefs,
    lists: Map<u64, Seq<RefLink>>,
    h: u32,
    g: u64,
)
    requires
        refs.wf(),
        linked(id, refs, lists),
        refs.by_handle@.contains_key(h),
    ensures
        lists[refs.by_handle@[h].node_ref.node].contains(RefLink { process: id, handle: h }),
        refs.by_node@[refs.by_handle@[h].node_ref.node] == h,
        lists.contains_key(g) && lists[g].contains(RefLink { process: id, handle: h }) ==> g
            == refs.by_handle@[h].node_ref.node,
{
}

/// Linking the handle that `insert_or_update_handle` created into the
/// target node's list keeps every reference linked once.
pub proof fn lemma_link_new_handle(
    id: u64,
    o: &ProcessNodeRefs,
    n: &ProcessNodeRefs,
    node_ref: NodeRef,
    is_manager: bool,
    dead: bool,
    debug_id: u64,
    r: Result<u32, Errno>,
    lists: Map<u64, Seq<RefLink>>,
)
    requires
        o.wf(),
        linked(id, o, lists),
        lists.contains_key(node_ref.node),
        insert_outcome(o, n, node_ref, is_manager, dead, debug_id, r),
    ensures
        r is Ok && !o.by_node@.contains_key(node_ref.node) ==> linked(
            id,
            n,
            lists.insert(node_ref.node, lists[node_ref.node].push(RefLink { process: id, handle: r->Ok_0 })),
        ),
        !(r is Ok && !o.by_node@.contains_key(node_ref.node)) ==> linked(id, n, lists),
{
    let g = node_ref.node;
    if r is Ok && !o.by_node@.contains_key(g) {
        let h = r->Ok_0;
        let link = RefLink { process: id, handle: h };
        let lists2 = lists.insert(g, lists[g].push(link));
        assert(!o.by_handle@.contains_key(h));
        assert(lists2[g][lists[g].len() as int] == link);
        assert forall|h2: u32| #[trigger] n.by_handle@.contains_key(h2) implies {
            let g2 = n.by_handle@[h2].node_ref.node;
            &&& lists2.contains_key(g2)
            &&& lists2[g2].contains(RefLink { process: id, handle: h2 })
        } by {
            if h2 != h {
                assert(o.by_handle@.contains_key(h2));
                let g2 = o.by_handle@[h2].node_ref.node;
                let l2 = RefLink { process: id, handle: h2 };
                if g2 == g {
                    let k = choose|k: int| 0 <= k < lists[g].len() && lists[g][k] == l2;
                    assert(lists2[g][k] == l2);
                }
            }
        }
        assert forall|g2: u64, l: RefLink| lists2.contains_key(g2) && #[trigger] lists2[g2].contains(l) && l.process == id implies {
            &&& n.by_handle@.contains_key(l.handle)
            &&& n.by_handle@[l.handle].node_ref.node == g2
        } by {
            if g2 == g && l != link {
                let k = choose|k: int| 0 <= k < lists2[g].len() && lists2[g][k] == l;
                assert(k < lists[g].len());
                assert(lists[g][k] == l);
                assert(lists[g].contains(l));
                assert(o.by_handle@.contains_key(l.handle));
            } else if g2 != g {
                assert(lists[g2].contains(l));
                assert(o.by_handle@.contains_key(l.handle));
            }
        }
    } else if o.by_node@.contains_key(g) {
        let h = o.by_node@[g];
        assert(o.by_handle@.contains_key(h));
        assert forall|h2: u32| #[trigger] n.by_handle@.contains_key(h2) implies {
            let g2 = n.by_handle@[h2].node_ref.node;
            &&& lists.contains_key(g2)
            &&& lists[g2].contains(RefLink { process: id, handle: h2 })
        } by {
            assert(o.by_handle@.contains_key(h2));
        }
        assert forall|g2: u64, l: RefLink| lists.contains_key(g2) && #[trigger] lists[g2].contains(l) && l.process == id implies {
            &&& n.by_handle@.contains_key(l.handle)
            &&& n.by_handle@[l.handle].node_ref.node == g2
        } by {
            assert(o.by_handle@.contains_key(l.handle));
        }
    }
}

/// Unlinking the reference that `update_ref` dropped from its node's list
/// keeps every remaining reference linked once.
pub proof fn lemma_unlink_dropped(
    id: u64,
    o: &ProcessNodeRefs,
    n: &ProcessNodeRefs,
    handle: u32,
    inc: bool,
    strong: bool,
    removed: Option<NodeRefInfo>,
    lists: Map<u64, Seq<RefLink>>,
)
    requires
        o.wf(),
        linked(id, o, lists),
        update_outcome(o, n, handle, inc, strong, removed),
    ensures
        removed matches Some(info) ==> linked(
            id,
            n,
            lists.insert(
                info.node_ref.node,
                lists[info.node_ref.node].filter(|l: RefLink| l != RefLink { process: id, handle }),
            ),
        ),
        removed is None ==> linked(id, n, lists),
{
    let link = RefLink { process: id, handle };
    match removed {
        Some(info) => {
            let g = info.node_ref.node;
            let pred = |l: RefLink| l != link;
            let lists2 = lists.insert(g, lists[g].filter(pred));
            assert(o.by_handle@.contains_key(handle));
            assert forall|h2: u32| #[trigger] n.by_handle@.contains_key(h2) implies {
                let g2 = n.by_handle@[h2].node_ref.node;
                &&& lists2.contains_key(g2)
                &&& lists2[g2].contains(RefLink { process: id, handle: h2 })
            } by {
                assert(o.by_handle@.contains_key(h2));
                assert(h2 != handle);
                let g2 = o.by_handle@[h2].node_ref.node;
                if g2 == g {
                    assert(o.by_node@[g] == handle);
                    assert(o.by_node@[g2] == h2);
                }
            }
            assert forall|g2: u64, l: RefLink| lists2.contains_key(g2) && #[trigger] lists2[g2].contains(l) && l.process == id implies {
                &&& n.by_handle@.contains_key(l.handle)
                &&& n.by_handle@[l.handle].node_ref.node == g2
            } by {
                if g2 == g {
                    broadcast use vstd::seq_lib::group_filter_ensures;
                    lists[g].lemma_filter_contains_rev(pred, l);
                    let k = choose|k: int| 0 <= k < lists[g].filter(pred).len() && lists[g].filter(pred)[k] == l;
                    assert(pred(lists[g].filter(pred)[k]));
                    assert(l.handle != handle);
                    assert(o.by_handle@.contains_key(l.handle));
                } else {
                    assert(lists[g2].contains(l));
                    assert(o.by_handle@.contains_key(l.handle));
                    assert(l.handle != handle) by {
                        if l.handle == handle {
                            assert(o.by_handle@[handle].node_ref.node == g);
                        }
                    }
                }
            }
        },
        None => {
            assert forall|h2: u32| #[trigger] n.by_handle@.contains_key(h2) implies {
                let g2 = n.by_handle@[h2].node_ref.node;
                &&& lists.contains_key(g2)
                &&& lists[g2].contains(RefLink { process: id, handle: h2 })
            } by {
                assert(o.by_handle@.contains_key(h2));
            }
            assert forall|g2: u64, l: RefLink| lists.contains_key(g2) && #[trigger] lists[g2].contains(l) && l.process == id implies {
                &&& n.by_handle@.contains_key(l.handle)
                &&& n.by_handle@[l.handle].node_ref.node == g2
            } by {
                assert(o.by_handle@.contains_key(l.handle));
            }
        },
    }
}

} // verus!
