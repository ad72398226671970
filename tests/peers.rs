use binder_process::context::Context;
use binder_process::errors::Errno;
use binder_process::node::{DeathSubscriber, RefLink};
use binder_process::node_ref::NodeRef;
use binder_process::node_refs::DeathRequest;
use binder_process::peers::{
    clear_death_linked, find_node_owner, insert_handle_linked, node_info_for_ref,
    request_death_linked, update_ref_linked,
};
use binder_process::process::{NodeInfoForRef, Process};
use binder_process::work::Work;

fn owner_with_node(ctx: &mut Context) -> Process {
    let mut q = Process::new(ctx, 1, 100);
    let t = q.get_current_thread(100, 100).unwrap();
    q.get_node(0x500, 5, 0, true, t, 0x55).unwrap();
    q
}

#[test]
fn new_handle_is_linked_once() {
    let mut ctx = Context::new();
    let mut q = owner_with_node(&mut ctx);
    let mut p = Process::new(&mut ctx, 2, 200);
    let h = insert_handle_linked(&mut p, &mut q, 0x500, NodeRef::new(0x55, true), false, 1).unwrap();
    assert_eq!(h, 1);
    assert_eq!(q.inner.nodes.get(&0x500).unwrap().refs, vec![RefLink { process: 2, handle: 1 }]);
    let again = insert_handle_linked(&mut p, &mut q, 0x500, NodeRef::new(0x55, false), false, 2).unwrap();
    assert_eq!(again, 1);
    assert_eq!(q.inner.nodes.get(&0x500).unwrap().refs.len(), 1);
    assert_eq!(p.node_refs.by_handle.get(&1).unwrap().node_ref, NodeRef { node: 0x55, strong: 1, weak: 1 });
}

#[test]
fn dropped_reference_is_unlinked_with_its_death() {
    let mut ctx = Context::new();
    let mut q = owner_with_node(&mut ctx);
    let mut p = Process::new(&mut ctx, 2, 200);
    let h = insert_handle_linked(&mut p, &mut q, 0x500, NodeRef::new(0x55, true), false, 1).unwrap();
    assert_eq!(request_death_linked(&mut p, &mut q, 0x500, h, 0xC), Ok(DeathRequest::Registered));
    assert_eq!(q.inner.nodes.get(&0x500).unwrap().deaths, vec![DeathSubscriber { process: 2, cookie: 0xC }]);
    let dropped = update_ref_linked(&mut p, &mut q, 0x500, &ctx, h, false, true, 0).unwrap().unwrap();
    assert_eq!(dropped.handle, h);
    let node = q.inner.nodes.get(&0x500).unwrap();
    assert!(node.refs.is_empty());
    assert!(node.deaths.is_empty());
    assert!(p.node_refs.by_handle.is_empty());
}

#[test]
fn handle_zero_links_into_manager_node() {
    let mut ctx = Context::new();
    let mut m = Process::new(&mut ctx, 1, 100);
    let t = m.get_current_thread(100, 100).unwrap();
    m.set_as_manager(&mut ctx, None, t, 0x77, 0).unwrap();
    let mut p = Process::new(&mut ctx, 2, 200);
    assert_eq!(update_ref_linked(&mut p, &mut m, 0, &ctx, 0, true, true, 3), Ok(None));
    assert_eq!(p.node_refs.by_handle.get(&0).unwrap().node_ref.node, 0x77);
    assert_eq!(m.inner.nodes.get(&0).unwrap().refs, vec![RefLink { process: 2, handle: 0 }]);
    let mut other = Process::new(&mut ctx, 3, 300);
    assert_eq!(update_ref_linked(&mut m, &mut other, 0, &ctx, 0, true, true, 3), Err(Errno::Inval));
}

#[test]
fn death_request_on_dead_owner_fires_at_once() {
    let mut ctx = Context::new();
    let mut q = owner_with_node(&mut ctx);
    let mut p = Process::new(&mut ctx, 2, 200);
    let h = insert_handle_linked(&mut p, &mut q, 0x500, NodeRef::new(0x55, true), false, 1).unwrap();
    q.inner.is_dead = true;
    assert_eq!(request_death_linked(&mut p, &mut q, 0x500, h, 0xD), Ok(DeathRequest::FiredImmediately));
    assert!(q.inner.nodes.get(&0x500).unwrap().deaths.is_empty());
    assert_eq!(p.get_work(), Some(Work::DeadBinder { cookie: 0xD }));
}

#[test]
fn clear_death_leaves_node_death_list() {
    let mut ctx = Context::new();
    let mut q = owner_with_node(&mut ctx);
    let mut p = Process::new(&mut ctx, 2, 200);
    let h = insert_handle_linked(&mut p, &mut q, 0x500, NodeRef::new(0x55, true), false, 1).unwrap();
    request_death_linked(&mut p, &mut q, 0x500, h, 0xE).unwrap();
    assert_eq!(clear_death_linked(&mut p, &mut q, 0x500, h, 0xF, 200), Err(Errno::Inval));
    assert_eq!(q.inner.nodes.get(&0x500).unwrap().deaths.len(), 1);
    assert_eq!(clear_death_linked(&mut p, &mut q, 0x500, h, 0xE, 200), Ok(()));
    assert!(q.inner.nodes.get(&0x500).unwrap().deaths.is_empty());
    assert_eq!(request_death_linked(&mut p, &mut q, 0x500, h, 0xE), Ok(DeathRequest::Registered));
}

#[test]
fn node_info_reads_owner_counts() {
    let mut ctx = Context::new();
    let mut q = owner_with_node(&mut ctx);
    let mut p = Process::new(&mut ctx, 2, 200);
    let tp = p.get_current_thread(200, 200).unwrap();
    p.set_as_manager(&mut ctx, None, tp, 0x99, 0).unwrap();
    let h = insert_handle_linked(&mut p, &mut q, 0x500, NodeRef::new(0x55, true), false, 1).unwrap();
    q.update_node(0x500, 5, true);
    q.inner.nodes.get_mut(&0x500).unwrap().strong = 3;
    q.inner.nodes.get_mut(&0x500).unwrap().weak = 2;
    let ask = NodeInfoForRef { handle: h, strong_count: 0, weak_count: 0, reserved1: 0, reserved2: 0, reserved3: 0 };
    let out = node_info_for_ref(&p, &q, 0x500, ask).unwrap();
    assert_eq!((out.handle, out.strong_count, out.weak_count), (h, 3, 2));
    q.inner.nodes.get_mut(&0x500).unwrap().strong = u64::MAX;
    assert_eq!(node_info_for_ref(&p, &q, 0x500, ask).unwrap().strong_count, u32::MAX);
    assert_eq!(node_info_for_ref(&p, &q, 0x500, NodeInfoForRef { weak_count: 1, ..ask }), Err(Errno::Inval));
}

#[test]
fn release_report_reaches_other_processes() {
    let mut ctx = Context::new();
    let mut q = owner_with_node(&mut ctx);
    let mut p = Process::new(&mut ctx, 2, 200);
    let mut r = Process::new(&mut ctx, 3, 300);
    let tr = r.get_current_thread(300, 300).unwrap();
    r.get_node(0x700, 7, 0, true, tr, 0x77).unwrap();
    let h = insert_handle_linked(&mut p, &mut q, 0x500, NodeRef::new(0x55, true), false, 1).unwrap();
    request_death_linked(&mut p, &mut q, 0x500, h, 0xAA).unwrap();
    let hp = insert_handle_linked(&mut q, &mut r, 0x700, NodeRef::new(0x77, true), false, 2).unwrap();
    request_death_linked(&mut q, &mut r, 0x700, hp, 0xBB).unwrap();

    q.release();
    let report = q.run_deferred(&mut ctx).released.unwrap();
    assert_eq!(q.inner.defer_work, 0);
    assert_eq!(p.apply_release_report(q.id, &report), vec![0xAA]);
    assert_eq!(p.get_work(), Some(Work::DeadBinder { cookie: 0xAA }));
    assert!(r.apply_release_report(q.id, &report).is_empty());
    let node = r.inner.nodes.get(&0x700).unwrap();
    assert!(node.refs.is_empty());
    assert!(node.deaths.is_empty());
}

#[test]
fn owner_lookup_by_global_id() {
    let mut ctx = Context::new();
    let q = owner_with_node(&mut ctx);
    let p = Process::new(&mut ctx, 2, 200);
    let procs = vec![p, q];
    assert_eq!(find_node_owner(&procs, 0x55), Some((1, 0x500)));
    assert_eq!(find_node_owner(&procs, 0x56), None);
}

#[test]
fn dead_process_creates_no_node() {
    let mut ctx = Context::new();
    let mut p = Process::new(&mut ctx, 1, 100);
    let t = p.get_current_thread(100, 100).unwrap();
    p.get_node(0x10, 1, 0, true, t, 5).unwrap();
    p.inner.is_dead = true;
    assert_eq!(p.get_node(0x20, 1, 0, true, t, 6), Err(Errno::Srch));
    assert_eq!(p.inner.nodes.len(), 1);
    assert_eq!(p.get_node(0x10, 1, 0, true, t, 6), Ok(NodeRef { node: 5, strong: 1, weak: 0 }));
    assert_eq!(p.set_as_manager(&mut ctx, None, t, 7, 0), Err(Errno::Srch));
    assert!(ctx.manager.is_none());
}
