use binder_process::context::Context;
use binder_process::errors::Errno;
use binder_process::inner::Delivery;
use binder_process::node::RefLink;
use binder_process::node_ref::NodeRef;
use binder_process::node_refs::{DeathRequest, ProcessNodeRefs};
use binder_process::process::{Process, WorkOrRegistration};
use binder_process::work::Work;

#[test]
fn indexes_agree_after_inserts_and_removals() {
    let mut refs = ProcessNodeRefs::new();
    for g in [5u64, 9, 2, 40] {
        refs.insert_or_update_handle(NodeRef::new(g, true), false, false, g).unwrap();
    }
    refs.update_ref(2, false, true);
    assert_eq!(refs.by_handle.len(), refs.by_node.len());
    for (h, info) in refs.by_handle.iter() {
        assert_eq!(info.handle, *h);
        assert_eq!(refs.by_node.get(&info.node_ref.node), Some(h));
    }
    for (g, h) in refs.by_node.iter() {
        assert_eq!(refs.by_handle.get(h).unwrap().node_ref.node, *g);
    }
}

#[test]
fn request_death_twice_is_no_op() {
    let mut refs = ProcessNodeRefs::new();
    let h = refs.insert_or_update_handle(NodeRef::new(3, true), false, false, 1).unwrap();
    assert_eq!(refs.request_death(h, 0xAB, false), Ok(DeathRequest::Registered));
    let before = *refs.by_handle.get(&h).unwrap();
    assert_eq!(refs.request_death(h, 0xAB, false), Ok(DeathRequest::AlreadyRegistered));
    assert_eq!(*refs.by_handle.get(&h).unwrap(), before);
    assert_eq!(refs.by_handle.len(), 1);
}

#[test]
fn insert_same_node_repeatedly_gives_one_handle() {
    let mut refs = ProcessNodeRefs::new();
    let h1 = refs.insert_or_update_handle(NodeRef::new(8, true), false, false, 1).unwrap();
    let h2 = refs.insert_or_update_handle(NodeRef::new(8, false), false, false, 2).unwrap();
    let h3 = refs.insert_or_update_handle(NodeRef { node: 8, strong: 2, weak: 3 }, false, false, 3).unwrap();
    assert_eq!(h1, 1);
    assert_eq!(h2, h1);
    assert_eq!(h3, h1);
    assert_eq!(refs.by_handle.len(), 1);
    let nr = refs.by_handle.get(&h1).unwrap().node_ref;
    assert_eq!(nr, NodeRef { node: 8, strong: 3, weak: 4 });
}

#[test]
fn clear_then_request_death_installs_new_one() {
    let mut refs = ProcessNodeRefs::new();
    let h = refs.insert_or_update_handle(NodeRef::new(3, true), false, false, 1).unwrap();
    refs.request_death(h, 0x10, false).unwrap();
    assert_eq!(refs.clear_death(h, 0x10), Ok(true));
    assert!(refs.by_handle.get(&h).unwrap().death.is_none());
    assert_eq!(refs.request_death(h, 0x20, false), Ok(DeathRequest::Registered));
    assert_eq!(refs.by_handle.get(&h).unwrap().death.unwrap().cookie, 0x20);
}

#[test]
fn handle_zero_only_for_manager() {
    let mut ctx = Context::new();
    let mut m = Process::new(&mut ctx, 1, 100);
    let mut p = Process::new(&mut ctx, 2, 200);
    let tm = m.get_current_thread(100, 100).unwrap();
    assert_eq!(p.insert_or_update_handle(NodeRef::new(0x50, true), false, 1), Ok(1));
    assert!(!p.node_refs.by_handle.contains_key(&0));
    m.set_as_manager(&mut ctx, None, tm, 0x77, 0).unwrap();
    assert_eq!(p.update_ref(&ctx, 0, true, true, 9), Ok(None));
    assert_eq!(p.node_refs.by_handle.get(&0).unwrap().node_ref.node, 0x77);
    assert_eq!(m.update_ref(&ctx, 0, true, true, 9), Err(Errno::Inval));
}

#[test]
fn pool_stays_within_max_threads() {
    let mut ctx = Context::new();
    let mut p = Process::new(&mut ctx, 1, 100);
    assert!(!p.needs_thread());
    p.set_max_threads(2);
    assert!(p.needs_thread());
    assert!(!p.needs_thread());
    assert!(p.register_thread());
    assert!(!p.register_thread());
    assert!(p.needs_thread());
    assert!(p.register_thread());
    assert!(!p.needs_thread());
    assert_eq!(p.inner.started_thread_count, 2);
    assert!(p.inner.started_thread_count <= p.inner.max_threads);
}

#[test]
fn ready_threads_stay_among_threads() {
    let mut ctx = Context::new();
    let mut p = Process::new(&mut ctx, 1, 100);
    let t = p.get_current_thread(100, 101).unwrap();
    assert_eq!(p.get_work_or_register(t), WorkOrRegistration::Registered);
    assert_eq!(p.get_work_or_register(t), WorkOrRegistration::Registered);
    assert_eq!(p.inner.ready_threads, vec![t]);
    let removed = p.remove_thread(t).unwrap();
    assert!(removed.dead);
    assert!(p.inner.ready_threads.is_empty());
    assert!(p.inner.threads.is_empty());
}

#[test]
fn dead_process_takes_nothing_new() {
    let mut ctx = Context::new();
    let mut p = Process::new(&mut ctx, 1, 100);
    p.deferred_release(&mut ctx);
    assert_eq!(p.insert_or_update_handle(NodeRef::new(4, true), false, 1), Err(Errno::Srch));
    assert_eq!(p.push_work(Work::ReturnCode { code: 1 }), Err(Errno::DeadReply));
    assert_eq!(p.request_death(1, 1, true), Err(Errno::Inval));
    assert!(p.inner.is_dead);
    assert!(p.inner.work.is_empty());
    assert!(p.node_refs.by_handle.is_empty());
}

#[test]
fn outstanding_txns_never_underflow() {
    let mut ctx = Context::new();
    let mut p = Process::new(&mut ctx, 1, 100);
    assert!(!p.drop_outstanding_txn());
    assert_eq!(p.inner.outstanding_txns, 0);
    p.add_outstanding_txn();
    assert!(!p.drop_outstanding_txn());
    assert_eq!(p.inner.outstanding_txns, 0);
}

#[test]
fn no_buffers_without_mapping() {
    let mut ctx = Context::new();
    let mut p = Process::new(&mut ctx, 1, 100);
    assert_eq!(p.buffer_alloc(64, false, 1), Err(Errno::DeadReply));
    assert_eq!(p.buffer_get(0x1000), None);
    assert_eq!(p.buffer_raw_free(0x1000), None);
    assert!(p.inner.mapping.is_none());
}

#[test]
fn push_work_prefers_ready_thread() {
    let mut ctx = Context::new();
    let mut p = Process::new(&mut ctx, 1, 100);
    let t = p.get_current_thread(100, 101).unwrap();
    p.get_work_or_register(t);
    let w = Work::Transaction { debug_id: 1, oneway: false };
    assert_eq!(p.push_work(w), Ok(Delivery::Thread { id: t }));
    assert_eq!(p.inner.threads.get(&t).unwrap().todo, vec![w]);
    assert!(p.inner.ready_threads.is_empty());
    assert_eq!(p.push_work(w), Ok(Delivery::Queued { sync_wakeup: true }));
    let one = Work::Transaction { debug_id: 2, oneway: true };
    assert_eq!(p.push_work(one), Ok(Delivery::Queued { sync_wakeup: false }));
    assert_eq!(p.inner.work, vec![w, one]);
    assert_eq!(p.get_work_or_register(t), WorkOrRegistration::Work(w));
}

#[test]
fn each_reference_linked_into_one_node() {
    let mut ctx = Context::new();
    let mut owner = Process::new(&mut ctx, 1, 100);
    let mut p = Process::new(&mut ctx, 2, 200);
    let t = owner.get_current_thread(100, 100).unwrap();
    let a = owner.get_node(0xa0, 1, 0, true, t, 0x1a).unwrap();
    let b = owner.get_node(0xb0, 2, 0, true, t, 0x1b).unwrap();
    let ha = p.insert_or_update_handle(a, false, 1).unwrap();
    owner.link_node_ref(0xa0, RefLink { process: p.id, handle: ha });
    let hb = p.insert_or_update_handle(b, false, 2).unwrap();
    owner.link_node_ref(0xb0, RefLink { process: p.id, handle: hb });
    assert_eq!(owner.inner.nodes.get(&0xa0).unwrap().refs, vec![RefLink { process: 2, handle: ha }]);
    assert_eq!(owner.inner.nodes.get(&0xb0).unwrap().refs, vec![RefLink { process: 2, handle: hb }]);
    let dropped = p.update_ref(&ctx, ha, false, true, 0).unwrap().unwrap();
    assert_eq!(dropped.node_ref.node, 0x1a);
    owner.unlink_node_ref(0xa0, RefLink { process: p.id, handle: ha });
    assert!(owner.inner.nodes.get(&0xa0).unwrap().refs.is_empty());
    assert_eq!(owner.inner.nodes.get(&0xb0).unwrap().refs.len(), 1);
}
