use binder_process::context::Context;
use binder_process::errors::Errno;
use binder_process::inner::PROC_DEFER_RELEASE;
use binder_process::ioctl::{decode_ioctl, Command, BINDER_SET_CONTEXT_MGR, BINDER_VERSION};
use binder_process::node::DeathSubscriber;
use binder_process::node_ref::NodeRef;
use binder_process::node_refs::DeathRequest;
use binder_process::buffers::{VM_DONTCOPY, VM_MAYWRITE, VM_MIXEDMAP};
use binder_process::lifecycle::{FreezeStep, WaitEvent};
use binder_process::process::Process;
use binder_process::work::Work;

const VM_READ: u64 = 0x1;
const MIB: usize = 1 << 20;

fn opened(ctx: &mut Context, id: u64, pid: i32) -> Process {
    Process::new(ctx, id, pid)
}

#[test]
fn open_mmap_set_manager_version() {
    let mut ctx = Context::new();
    let mut p = opened(&mut ctx, 1, 100);
    assert_eq!(ctx.procs, vec![1]);
    let flags = p.mmap(100, 0x7000_0000, 0x7000_0000 + MIB, VM_READ | VM_MAYWRITE).unwrap();
    assert_ne!(flags & VM_DONTCOPY, 0);
    assert_ne!(flags & VM_MIXEDMAP, 0);
    assert_eq!(flags & VM_MAYWRITE, 0);
    assert_eq!(flags & VM_READ, VM_READ);
    let m = p.inner.mapping.as_ref().unwrap();
    assert_eq!(m.address, 0x7000_0000);
    assert_eq!(m.alloc.size, MIB);

    let tid = p.get_current_thread(100, 100).unwrap();
    assert_eq!(decode_ioctl(BINDER_SET_CONTEXT_MGR), Ok(Command::SetContextMgr));
    assert_eq!(p.set_as_manager(&mut ctx, None, tid, 0xfeed, 1000), Ok(()));
    let manager = ctx.manager.unwrap();
    assert_eq!(manager.node, 0xfeed);
    assert_eq!(manager.owner, 1);
    let node = p.inner.nodes.get(&0).unwrap();
    assert_eq!(node.ptr, 0);
    assert_eq!(node.cookie, 0);
    assert_eq!(node.flags, 0);
    assert_eq!(node.global_id, 0xfeed);
    assert!(p.inner.is_manager);

    assert_eq!(decode_ioctl(BINDER_VERSION), Ok(Command::Version));
    assert_eq!(p.version(), 8);
}

#[test]
fn duplicate_manager_attempt() {
    let mut ctx = Context::new();
    let mut p = opened(&mut ctx, 1, 100);
    let mut q = opened(&mut ctx, 2, 200);
    let tp = p.get_current_thread(100, 100).unwrap();
    let tq = q.get_current_thread(200, 201).unwrap();
    assert_eq!(p.set_as_manager(&mut ctx, None, tp, 0xa0, 1000), Ok(()));
    assert_eq!(q.set_as_manager(&mut ctx, None, tq, 0xb0, 1000), Err(Errno::Busy));
    assert_eq!(ctx.manager.unwrap().node, 0xa0);
    assert_eq!(ctx.manager.unwrap().owner, 1);
    assert!(!q.inner.is_manager);
}

#[test]
fn handle_allocation_ordering() {
    let mut ctx = Context::new();
    let mut p = opened(&mut ctx, 1, 100);
    assert_eq!(p.insert_or_update_handle(NodeRef::new(0x11, true), false, 1), Ok(1));
    assert_eq!(p.insert_or_update_handle(NodeRef::new(0x22, true), false, 2), Ok(2));
    assert_eq!(p.insert_or_update_handle(NodeRef::new(0x33, true), false, 3), Ok(3));
    let removed = p.update_ref(&ctx, 2, false, true, 0).unwrap().unwrap();
    assert_eq!(removed.handle, 2);
    assert_eq!(removed.node_ref.node, 0x22);
    assert!(!p.node_refs.by_handle.contains_key(&2));
    assert!(!p.node_refs.by_node.contains_key(&0x22));
    assert_eq!(p.insert_or_update_handle(NodeRef::new(0x44, true), false, 4), Ok(2));
}

#[test]
fn node_lazily_created_then_cookie_conflict() {
    let mut ctx = Context::new();
    let mut p = opened(&mut ctx, 1, 100);
    let tid = p.get_current_thread(100, 100).unwrap();
    let r = p.get_node(0x1000, 0xA, 0, true, tid, 77).unwrap();
    assert_eq!(r, NodeRef { node: 77, strong: 1, weak: 0 });
    assert_eq!(p.inner.nodes.len(), 1);
    assert_eq!(p.get_node(0x1000, 0xB, 0, true, tid, 78), Err(Errno::Inval));
    assert_eq!(p.inner.nodes.len(), 1);
    assert_eq!(p.inner.nodes.get(&0x1000).unwrap().strong, 1);
}

#[test]
fn freeze_drains() {
    let mut ctx = Context::new();
    let mut p = opened(&mut ctx, 1, 100);
    p.add_outstanding_txn();
    p.add_outstanding_txn();
    assert_eq!(p.inner.outstanding_txns, 2);
    assert_eq!(p.ioctl_freeze(1, 1000), FreezeStep::Wait { remaining: 1000 });
    assert!(p.inner.is_frozen);
    assert!(!p.drop_outstanding_txn());
    assert!(p.drop_outstanding_txn());
    assert_eq!(p.inner.outstanding_txns, 0);
    assert_eq!(p.freeze_wait_event(WaitEvent::Woken { remaining: 900 }), FreezeStep::Done);
    assert!(p.inner.is_frozen);
    p.inner.sync_recv = true;
    p.inner.async_recv = true;
    assert_eq!(p.ioctl_freeze(0, 0), FreezeStep::Done);
    assert!(!p.inner.is_frozen);
    assert!(!p.inner.sync_recv);
    assert!(!p.inner.async_recv);
}

#[test]
fn death_on_already_dead_peer() {
    let mut ctx = Context::new();
    let mut p = opened(&mut ctx, 1, 100);
    for i in 1..=7u64 {
        assert_eq!(p.insert_or_update_handle(NodeRef::new(0x100 + i, true), false, i), Ok(i as u32));
    }
    assert_eq!(p.request_death(7, 0xC0FFEE, true), Ok(DeathRequest::FiredImmediately));
    let info = p.node_refs.by_handle.get(&7).unwrap();
    assert_eq!(info.death.unwrap().cookie, 0xC0FFEE);
    assert!(info.death.unwrap().dead);
    assert_eq!(p.inner.work, vec![Work::DeadBinder { cookie: 0xC0FFEE }]);
    assert_eq!(p.get_work(), Some(Work::DeadBinder { cookie: 0xC0FFEE }));
    assert_eq!(p.get_work(), None);
}

#[test]
fn deferred_release_with_outstanding_allocations() {
    let mut ctx = Context::new();
    let mut p = opened(&mut ctx, 1, 100);
    p.mmap(100, 0x4000_0000, 0x4000_0000 + MIB, VM_READ).unwrap();
    let a = p.buffer_alloc(256, false, 100).unwrap();
    let b = p.buffer_alloc(512, true, 100).unwrap();
    p.buffer_make_freeable(a.offset, Some(1));
    p.buffer_make_freeable(b.offset, Some(2));
    p.insert_or_update_handle(NodeRef::new(0x99, true), false, 1).unwrap();
    let tid = p.get_current_thread(100, 101).unwrap();
    p.push_work(Work::Transaction { debug_id: 5, oneway: true }).unwrap();

    assert!(p.release());
    assert_eq!(p.take_deferred(), PROC_DEFER_RELEASE);
    let report = p.deferred_release(&mut ctx);
    assert!(p.inner.is_dead);
    assert!(!report.was_manager);
    assert!(ctx.procs.is_empty());
    assert_eq!(report.cancelled, vec![Work::Transaction { debug_id: 5, oneway: true }]);
    assert_eq!(report.freed.len(), 2);
    assert!(report.freed.iter().all(|r| r.committed));
    assert_eq!(report.address, 0x4000_0000);
    assert_eq!(report.dropped_refs.len(), 1);
    assert_eq!(report.dropped_refs[0].node_ref.node, 0x99);
    assert_eq!(report.released_threads, vec![tid]);
    assert!(p.inner.mapping.is_none());
    assert!(p.node_refs.by_handle.is_empty());
    assert!(p.node_refs.by_node.is_empty());
    assert!(p.inner.threads.is_empty());
    assert!(p.inner.work.is_empty());
}

#[test]
fn death_registered_on_live_peer_fires_at_its_release() {
    let mut ctx = Context::new();
    let mut q = opened(&mut ctx, 1, 100);
    let mut p = opened(&mut ctx, 2, 200);
    let tq = q.get_current_thread(100, 100).unwrap();
    let nr = q.get_node(0x500, 5, 0, true, tq, 0x55).unwrap();
    let h = p.insert_or_update_handle(nr, false, 1).unwrap();
    assert_eq!(p.request_death(h, 0xD1E, false), Ok(DeathRequest::Registered));
    assert!(p.inner.work.is_empty());
    q.add_node_death(0x500, DeathSubscriber { process: p.id, cookie: 0xD1E });
    let report = q.deferred_release(&mut ctx);
    assert_eq!(report.dead_notifications, vec![DeathSubscriber { process: 2, cookie: 0xD1E }]);
}
