use binder_process::context::Context;
use binder_process::errors::Errno;
use binder_process::inner::{PROC_DEFER_FLUSH, PROC_DEFER_RELEASE};
use binder_process::ioctl::{
    decode_ioctl, freeze_targets, get_frozen_status, Command, FrozenStatus, WriteOnlyArg,
    WriteOnlyOutcome, WriteReadArg, WriteReadOutcome, BINDER_ENABLE_ONEWAY_SPAM_DETECTION,
    BINDER_FREEZE, BINDER_VERSION,
    BINDER_GET_EXTENDED_ERROR, BINDER_GET_FROZEN_INFO, BINDER_GET_NODE_DEBUG_INFO,
    BINDER_GET_NODE_INFO_FOR_REF, BINDER_SET_CONTEXT_MGR_EXT, BINDER_SET_MAX_THREADS,
    BINDER_THREAD_EXIT, BINDER_WRITE_READ,
};
use binder_process::node::Node;
use binder_process::node_ref::{NodeDeath, NodeRef};
use binder_process::node_refs::ProcessNodeRefs;
use binder_process::buffers::VM_WRITE;
use binder_process::lifecycle::{FreezeStep, WaitEvent, POLLIN};
use binder_process::process::{NodeDebugInfo, NodeInfoForRef, Process};
use binder_process::range_alloc::{RangeAllocator, PAGE_SIZE};
use binder_process::work::Work;

#[test]
fn node_ref_update_rules() {
    let mut r = NodeRef::new(1, true);
    assert!(!r.update(true, false));
    assert_eq!(r, NodeRef { node: 1, strong: 1, weak: 1 });
    assert!(!r.update(false, true));
    assert!(r.update(false, false));
    assert_eq!(r, NodeRef { node: 1, strong: 0, weak: 0 });
    let mut w = NodeRef::new(2, false);
    assert!(!w.update(true, true));
    assert_eq!(w, NodeRef { node: 2, strong: 0, weak: 1 });
    let mut big = NodeRef { node: 3, strong: u64::MAX, weak: 0 };
    big.absorb(NodeRef { node: 3, strong: 5, weak: 2 });
    assert_eq!(big, NodeRef { node: 3, strong: u64::MAX, weak: 2 });
}

#[test]
fn node_death_clear_rules() {
    let mut d = NodeDeath::new(1, false);
    assert!(d.set_cleared());
    assert!(!d.set_cleared());
    let mut fired = NodeDeath::new(1, true);
    assert!(!fired.set_cleared());
    let mut done = NodeDeath { cookie: 1, dead: true, cleared: false, notification_done: true };
    assert!(done.set_cleared());
}

#[test]
fn node_refcount_edges() {
    let mut n = Node::new(1, 2, 0, 3);
    assert!(n.update_refcount(true, true, 1));
    assert!(!n.update_refcount(true, true, 1));
    assert!(!n.update_refcount(false, true, 1));
    assert!(n.update_refcount(false, true, 5));
    assert_eq!(n.strong, 0);
}

#[test]
fn missing_handle_errors() {
    let mut refs = ProcessNodeRefs::new();
    assert_eq!(refs.get_node_from_handle(4, true), Err(Errno::NoEnt));
    assert_eq!(refs.request_death(4, 1, false), Err(Errno::Inval));
    assert_eq!(refs.clear_death(4, 1), Err(Errno::Inval));
    assert!(refs.update_ref(4, true, true).is_none());
    let h = refs.insert_or_update_handle(NodeRef::new(1, false), false, false, 0).unwrap();
    assert_eq!(refs.get_node_from_handle(h, true), Err(Errno::Inval));
    assert_eq!(refs.get_node_from_handle(h, false), Ok(NodeRef { node: 1, strong: 0, weak: 1 }));
    assert_eq!(refs.clear_death(h, 1), Err(Errno::Inval));
    refs.request_death(h, 7, false).unwrap();
    assert_eq!(refs.clear_death(h, 8), Err(Errno::Inval));
    assert_eq!(refs.by_handle.get(&h).unwrap().death.unwrap().cookie, 7);
}

#[test]
fn handle_insert_on_dead_process() {
    let mut refs = ProcessNodeRefs::new();
    assert_eq!(refs.insert_or_update_handle(NodeRef::new(1, true), false, true, 0), Err(Errno::Srch));
    assert!(refs.by_handle.is_empty());
    assert_eq!(refs.lowest_free_handle(0), Some(0));
    refs.insert_or_update_handle(NodeRef::new(1, true), true, false, 0).unwrap();
    assert_eq!(refs.lowest_free_handle(0), Some(1));
    assert_eq!(refs.lowest_free_handle(u32::MAX), Some(u32::MAX));
}

#[test]
fn mmap_errors_and_size_cap() {
    let mut ctx = Context::new();
    let mut p = Process::new(&mut ctx, 1, 100);
    assert_eq!(p.mmap(99, 0x1000, 0x2000, 0), Err(Errno::Inval));
    assert_eq!(p.mmap(100, 0, 0x2000, 0), Err(Errno::Inval));
    assert_eq!(p.mmap(100, 0x1000, 0x2000, VM_WRITE), Err(Errno::Perm));
    assert_eq!(p.mmap(100, 0x1000, 0x1800, 0), Err(Errno::Inval));
    assert_eq!(p.mmap(100, 0x2000, 0x1000, 0), Err(Errno::Inval));
    assert!(p.inner.mapping.is_none());
    p.mmap(100, 0x1000_0000, 0x1000_0000 + (8 << 20), 0).unwrap();
    assert_eq!(p.inner.mapping.as_ref().unwrap().alloc.size, 4 << 20);
}

#[test]
fn buffer_lifecycle_and_pages() {
    let mut ctx = Context::new();
    let mut p = Process::new(&mut ctx, 1, 100);
    p.mmap(100, 0x10_0000, 0x10_0000 + 4 * PAGE_SIZE, 0).unwrap();
    let a = p.buffer_alloc(100, false, 1).unwrap();
    assert_eq!((a.offset, a.ptr, a.first_page, a.end_page), (0, 0x10_0000, 0, 1));
    let b = p.buffer_alloc(PAGE_SIZE, false, 1).unwrap();
    assert_eq!((b.offset, b.ptr, b.first_page, b.end_page), (100, 0x10_0000 + 100, 0, 2));
    assert_eq!(p.buffer_alloc(4 * PAGE_SIZE, false, 1), Err(Errno::NoSpc));
    assert_eq!(p.buffer_alloc(0, false, 1), Err(Errno::Inval));
    // The first page is still used by `a`: only page 1 is released.
    assert_eq!(p.buffer_raw_free(b.ptr), Some((1, 2)));
    assert_eq!(p.buffer_raw_free(b.ptr), None);
    assert_eq!(p.buffer_get(a.ptr), None);
    p.buffer_make_freeable(a.offset, Some(42));
    let again = p.buffer_get(a.ptr).unwrap();
    assert_eq!(again.info, Some(42));
    assert_eq!(again.size, 100);
    assert_eq!(p.buffer_raw_free(a.ptr), Some((0, 1)));
    assert_eq!(p.buffer_raw_free(0x10), None);
    let c = p.buffer_alloc(50, true, 2).unwrap();
    assert_eq!(c.offset, 0);
}

#[test]
fn range_allocator_reuses_lowest_gap() {
    let mut ra = RangeAllocator::new(1000);
    assert_eq!(ra.reserve_new(100, false, 1), Ok(0));
    assert_eq!(ra.reserve_new(100, false, 1), Ok(100));
    assert_eq!(ra.reserve_new(100, false, 1), Ok(200));
    // Page 0 is still used by the neighbours: no page is released.
    assert_eq!(ra.reservation_abort(100), Ok((1, 1)));
    assert_eq!(ra.reserve_new(50, false, 1), Ok(100));
    assert_eq!(ra.reserve_new(800, false, 1), Err(Errno::NoSpc));
    assert_eq!(ra.reservation_commit(100, None), Ok(()));
    assert_eq!(ra.reservation_commit(100, None), Err(Errno::NoEnt));
    assert_eq!(ra.reserve_existing(0), Err(Errno::NoEnt));
    assert_eq!(ra.reserve_existing(100), Ok((50, None)));
}

#[test]
fn freeze_errors() {
    let mut ctx = Context::new();
    let mut p = Process::new(&mut ctx, 1, 100);
    p.add_outstanding_txn();
    assert_eq!(p.ioctl_freeze(1, 10), FreezeStep::Wait { remaining: 10 });
    assert_eq!(p.freeze_wait_event(WaitEvent::Signal), FreezeStep::Failed(Errno::RestartSys));
    assert!(!p.inner.is_frozen);
    assert_eq!(p.ioctl_freeze(1, 10), FreezeStep::Wait { remaining: 10 });
    assert_eq!(p.freeze_wait_event(WaitEvent::Woken { remaining: 4 }), FreezeStep::Wait { remaining: 4 });
    assert_eq!(p.freeze_wait_event(WaitEvent::Timeout), FreezeStep::Failed(Errno::Again));
    assert!(!p.inner.is_frozen);
    assert_eq!(p.ioctl_freeze(1, 0), FreezeStep::Failed(Errno::Again));
    p.drop_outstanding_txn();
    let t = p.get_current_thread(100, 100).unwrap();
    p.inner.threads.get_mut(&t).unwrap().has_transaction = true;
    assert!(p.inner.txns_pending_locked());
    assert_eq!(p.ioctl_freeze(1, 10), FreezeStep::Failed(Errno::Again));
    p.inner.threads.get_mut(&t).unwrap().has_transaction = false;
    assert_eq!(p.ioctl_freeze(1, 10), FreezeStep::Done);
    assert!(p.inner.is_frozen);
}

#[test]
fn frozen_status_across_processes() {
    let mut ctx = Context::new();
    let mut a = Process::new(&mut ctx, 1, 300);
    let b = Process::new(&mut ctx, 2, 300);
    let c = Process::new(&mut ctx, 3, 400);
    a.inner.sync_recv = true;
    a.add_outstanding_txn();
    let mut procs = vec![a, b, c];
    assert_eq!(get_frozen_status(&procs, 300), Ok(FrozenStatus { pid: 300, sync_recv: 3, async_recv: 0 }));
    assert_eq!(get_frozen_status(&procs, 400), Ok(FrozenStatus { pid: 400, sync_recv: 0, async_recv: 0 }));
    assert_eq!(get_frozen_status(&procs, 500), Err(Errno::Inval));
    procs[2].inner.async_recv = true;
    assert_eq!(get_frozen_status(&procs, 400), Ok(FrozenStatus { pid: 400, sync_recv: 0, async_recv: 1 }));
    assert_eq!(freeze_targets(&procs, 300), vec![0, 1]);
    assert!(freeze_targets(&procs, 500).is_empty());
}

#[test]
fn ioctl_decoding() {
    assert_eq!(decode_ioctl(BINDER_WRITE_READ), Ok(Command::WriteRead));
    assert_eq!(decode_ioctl(BINDER_SET_MAX_THREADS), Ok(Command::SetMaxThreads));
    assert_eq!(decode_ioctl(BINDER_THREAD_EXIT), Ok(Command::ThreadExit));
    assert_eq!(decode_ioctl(BINDER_SET_CONTEXT_MGR_EXT), Ok(Command::SetContextMgrExt));
    assert_eq!(decode_ioctl(BINDER_FREEZE), Ok(Command::Freeze));
    assert_eq!(decode_ioctl(BINDER_GET_FROZEN_INFO), Ok(Command::GetFrozenInfo));
    assert_eq!(decode_ioctl(BINDER_GET_NODE_DEBUG_INFO), Ok(Command::GetNodeDebugInfo));
    assert_eq!(decode_ioctl(BINDER_GET_NODE_INFO_FOR_REF), Ok(Command::GetNodeInfoForRef));
    assert_eq!(decode_ioctl(BINDER_GET_EXTENDED_ERROR), Ok(Command::GetExtendedError));
    assert_eq!(decode_ioctl(0x4004_62ff), Err(Errno::Inval));
    assert_eq!(decode_ioctl(BINDER_WRITE_READ & 0x7fff_ffff), Err(Errno::Inval));
    assert_eq!(decode_ioctl(0x0000_6201), Err(Errno::Inval));
}

#[test]
fn node_debug_info_walks_in_pointer_order() {
    let mut ctx = Context::new();
    let mut p = Process::new(&mut ctx, 1, 100);
    let t = p.get_current_thread(100, 100).unwrap();
    p.get_node(0x300, 3, 0, true, t, 13).unwrap();
    p.get_node(0x100, 1, 0, false, t, 11).unwrap();
    p.get_node(0x200, 2, 0, true, t, 12).unwrap();
    assert_eq!(p.get_node_debug_info(0), NodeDebugInfo { ptr: 0x100, cookie: 1, has_strong_ref: 0, has_weak_ref: 1 });
    assert_eq!(p.get_node_debug_info(0x100), NodeDebugInfo { ptr: 0x200, cookie: 2, has_strong_ref: 1, has_weak_ref: 0 });
    assert_eq!(p.get_node_debug_info(0x300), NodeDebugInfo { ptr: 0, cookie: 0, has_strong_ref: 0, has_weak_ref: 0 });
    assert_eq!(p.inner.threads.get(&t).unwrap().todo.len(), 3);
}

#[test]
fn node_info_for_ref_rules() {
    let mut ctx = Context::new();
    let mut p = Process::new(&mut ctx, 1, 100);
    let q = NodeInfoForRef { handle: 1, strong_count: 0, weak_count: 0, reserved1: 0, reserved2: 0, reserved3: 0 };
    assert_eq!(p.get_node_info_from_ref(NodeInfoForRef { reserved2: 1, ..q }), Err(Errno::Inval));
    assert_eq!(p.get_node_info_from_ref(q), Err(Errno::Perm));
    let t = p.get_current_thread(100, 100).unwrap();
    p.set_as_manager(&mut ctx, Some((0x10, 0x20, 0)), t, 5, 0).unwrap();
    assert_eq!(p.get_node_info_from_ref(q), Err(Errno::Inval));
    p.insert_or_update_handle(NodeRef::new(0x66, true), false, 1).unwrap();
    assert_eq!(p.get_node_info_from_ref(q), Ok(NodeRef { node: 0x66, strong: 1, weak: 0 }));
    assert_eq!(p.get_transaction_node(&ctx, 0), Ok(NodeRef { node: 5, strong: 1, weak: 0 }));
    assert_eq!(p.get_transaction_node(&ctx, 1), Ok(NodeRef { node: 0x66, strong: 1, weak: 0 }));
    assert_eq!(p.get_transaction_node(&ctx, 2), Err(Errno::NoEnt));
}

#[test]
fn manager_uid_and_context_errors() {
    let mut ctx = Context::new();
    assert_eq!(ctx.get_manager_node(true), Err(Errno::DeadReply));
    let mut p = Process::new(&mut ctx, 1, 100);
    let t = p.get_current_thread(100, 100).unwrap();
    p.set_as_manager(&mut ctx, None, t, 9, 1000).unwrap();
    p.deferred_release(&mut ctx);
    assert!(ctx.manager.is_none());
    let mut q = Process::new(&mut ctx, 2, 200);
    let tq = q.get_current_thread(200, 200).unwrap();
    assert_eq!(q.set_as_manager(&mut ctx, None, tq, 10, 2000), Err(Errno::Perm));
    assert_eq!(q.set_as_manager(&mut ctx, Some((0, 0, 0)), tq, 10, 1000), Ok(()));
    assert_eq!(ctx.procs, vec![2]);
}

#[test]
fn deaths_clear_and_confirm() {
    let mut ctx = Context::new();
    let mut p = Process::new(&mut ctx, 1, 100);
    let t = p.get_current_thread(100, 100).unwrap();
    p.inner.threads.get_mut(&t).unwrap().looper = true;
    let h = p.insert_or_update_handle(NodeRef::new(0x5, true), false, 1).unwrap();
    assert_eq!(p.clear_death(h, 1, t), Err(Errno::Inval));
    p.request_death(h, 1, false).unwrap();
    assert_eq!(p.clear_death(h, 1, t), Ok(()));
    assert_eq!(p.inner.threads.get(&t).unwrap().todo, vec![Work::ClearDeathNotification { cookie: 1 }]);
    p.inner.death_delivered(NodeDeath { cookie: 2, dead: true, cleared: true, notification_done: false });
    p.inner.death_delivered(NodeDeath { cookie: 2, dead: true, cleared: true, notification_done: false });
    assert_eq!(p.inner.delivered_deaths.len(), 1);
    p.dead_binder_done(2, t);
    assert!(p.inner.delivered_deaths.is_empty());
    assert_eq!(p.inner.threads.get(&t).unwrap().todo.len(), 2);
    p.dead_binder_done(3, t);
    assert_eq!(p.inner.threads.get(&t).unwrap().todo.len(), 2);
}

#[test]
fn deferred_bits_and_poll() {
    let mut ctx = Context::new();
    let mut p = Process::new(&mut ctx, 1, 100);
    assert!(p.flush());
    assert!(!p.release());
    assert_eq!(p.take_deferred(), PROC_DEFER_FLUSH | PROC_DEFER_RELEASE);
    assert_eq!(p.take_deferred(), 0);
    assert_eq!(p.poll_mask(0, true), 0);
    p.push_work(Work::ReturnCode { code: 3 }).unwrap();
    assert_eq!(p.poll_mask(0, true), POLLIN);
    assert_eq!(p.poll_mask(0, false), 0);
    assert_eq!(p.poll_mask(4, true), 4);
    let t = p.get_current_thread(100, 7).unwrap();
    assert_eq!(p.deferred_flush(), vec![t]);
    assert_eq!(p.get_current_thread(101, 7), Err(Errno::Inval));
    p.set_oneway_spam_detection_enabled(5);
    assert!(p.is_oneway_spam_detection_enabled());
}

#[test]
fn update_node_drops_count_and_notifies() {
    let mut ctx = Context::new();
    let mut p = Process::new(&mut ctx, 1, 100);
    let t = p.get_current_thread(100, 100).unwrap();
    p.get_node(0x10, 1, 0, true, t, 50).unwrap();
    p.update_node(0x10, 2, true);
    assert_eq!(p.inner.nodes.get(&0x10).unwrap().strong, 1);
    p.update_node(0x10, 1, true);
    assert_eq!(p.inner.nodes.get(&0x10).unwrap().strong, 0);
    assert_eq!(p.inner.work, vec![Work::NodeRefsChanged { ptr: 0x10 }]);
}

#[test]
fn inc_ref_done_reports_vanished_count() {
    let mut ctx = Context::new();
    let mut p = Process::new(&mut ctx, 1, 100);
    let t = p.get_current_thread(100, 100).unwrap();
    p.get_node(0x10, 1, 0, false, t, 50).unwrap();
    p.inc_ref_done(0x10, 1, false);
    assert!(p.inner.work.is_empty());
    p.inc_ref_done(0x10, 1, true);
    assert_eq!(p.inner.work, vec![Work::NodeRefsChanged { ptr: 0x10 }]);
    p.inc_ref_done(0x10, 2, true);
    p.inc_ref_done(0x20, 1, true);
    assert_eq!(p.inner.work.len(), 1);
}

#[test]
fn run_deferred_flushes_then_releases() {
    let mut ctx = Context::new();
    let mut p = Process::new(&mut ctx, 1, 100);
    let t = p.get_current_thread(100, 9).unwrap();
    p.flush();
    let run = p.run_deferred(&mut ctx);
    assert_eq!(run.flushed, Some(vec![t]));
    assert!(run.released.is_none());
    assert!(!p.inner.is_dead);
    p.flush();
    p.release();
    let run = p.run_deferred(&mut ctx);
    assert_eq!(run.flushed, Some(vec![t]));
    let report = run.released.unwrap();
    assert_eq!(report.released_threads, vec![t]);
    assert!(p.inner.is_dead);
    assert_eq!(p.inner.defer_work, 0);
}

#[test]
fn debug_refs_lists_every_reference_in_handle_order() {
    let mut ctx = Context::new();
    let mut p = Process::new(&mut ctx, 1, 100);
    p.insert_or_update_handle(NodeRef::new(0x30, true), false, 7).unwrap();
    p.insert_or_update_handle(NodeRef::new(0x10, false), false, 8).unwrap();
    let refs = p.debug_refs();
    assert_eq!(refs.len(), 2);
    assert_eq!((refs[0].handle, refs[0].node_ref.node, refs[0].debug_id), (1, 0x30, 7));
    assert_eq!((refs[1].handle, refs[1].node_ref.node, refs[1].debug_id), (2, 0x10, 8));
}

#[test]
fn new_node_ref_goes_to_thread() {
    let mut ctx = Context::new();
    let mut p = Process::new(&mut ctx, 1, 100);
    let t = p.get_current_thread(100, 100).unwrap();
    p.get_node(0x10, 1, 0, true, t, 50).unwrap();
    let r = p.inner.new_node_ref_with_thread(0x10, true, t);
    assert_eq!(r, NodeRef { node: 50, strong: 1, weak: 0 });
    assert_eq!(p.inner.nodes.get(&0x10).unwrap().strong, 2);
    assert_eq!(p.inner.threads.get(&t).unwrap().todo, vec![Work::NodeRefsChanged { ptr: 0x10 }]);
    let w = p.inner.new_node_ref_with_thread(0x10, false, t);
    assert_eq!(w, NodeRef { node: 50, strong: 0, weak: 1 });
    assert_eq!(p.inner.threads.get(&t).unwrap().todo.len(), 2);
}

#[test]
fn dead_thread_gives_work_back() {
    let mut ctx = Context::new();
    let mut p = Process::new(&mut ctx, 1, 100);
    let t = p.get_current_thread(100, 100).unwrap();
    p.get_work_or_register(t);
    p.inner.threads.get_mut(&t).unwrap().dead = true;
    assert_eq!(p.push_work(Work::ReturnCode { code: 2 }), Err(Errno::DeadReply));
    assert!(p.inner.ready_threads.is_empty());
    assert!(p.inner.work.is_empty());
}

#[test]
fn write_only_dispatch() {
    let mut ctx = Context::new();
    let mut p = Process::new(&mut ctx, 1, 100);
    assert_eq!(
        p.ioctl_write_only(&mut ctx, BINDER_SET_MAX_THREADS, WriteOnlyArg::Value(4), 101, 101, 0, 0),
        Err(Errno::Inval)
    );
    assert_eq!(
        p.ioctl_write_only(&mut ctx, BINDER_SET_MAX_THREADS, WriteOnlyArg::Value(4), 100, 101, 0, 0),
        Ok(WriteOnlyOutcome::Done)
    );
    assert_eq!(p.inner.max_threads, 4);
    assert_eq!(
        p.ioctl_write_only(&mut ctx, BINDER_SET_MAX_THREADS, WriteOnlyArg::Empty, 100, 101, 0, 0),
        Err(Errno::Inval)
    );
    assert_eq!(
        p.ioctl_write_only(&mut ctx, BINDER_VERSION, WriteOnlyArg::Empty, 100, 101, 0, 0),
        Err(Errno::Inval)
    );
    assert_eq!(
        p.ioctl_write_only(&mut ctx, BINDER_ENABLE_ONEWAY_SPAM_DETECTION, WriteOnlyArg::Value(1), 100, 101, 0, 0),
        Ok(WriteOnlyOutcome::Done)
    );
    assert!(p.inner.oneway_spam_detection_enabled);
    assert_eq!(
        p.ioctl_write_only(
            &mut ctx,
            BINDER_FREEZE,
            WriteOnlyArg::Freeze { pid: 100, enable: 1, timeout: 0 },
            100,
            101,
            0,
            0
        ),
        Ok(WriteOnlyOutcome::FreezeAll { pid: 100, enable: 1, timeout: 0 })
    );
    assert_eq!(
        p.ioctl_write_only(
            &mut ctx,
            BINDER_SET_CONTEXT_MGR_EXT,
            WriteOnlyArg::Node { ptr: 0x40, cookie: 0x41, flags: 0 },
            100,
            101,
            0x99,
            0
        ),
        Ok(WriteOnlyOutcome::Done)
    );
    assert_eq!(ctx.manager.unwrap().node, 0x99);
    assert!(p.inner.threads.contains_key(&101));
    assert_eq!(
        p.ioctl_write_only(&mut ctx, BINDER_THREAD_EXIT, WriteOnlyArg::Empty, 100, 101, 0, 0),
        Ok(WriteOnlyOutcome::Done)
    );
    assert!(!p.inner.threads.contains_key(&101));
}

#[test]
fn write_read_dispatch() {
    let mut ctx = Context::new();
    let mut p = Process::new(&mut ctx, 1, 100);
    assert_eq!(p.ioctl_write_read(BINDER_VERSION, WriteReadArg::Empty, 100, 100), Ok(WriteReadOutcome::Version(8)));
    assert_eq!(p.ioctl_write_read(BINDER_WRITE_READ, WriteReadArg::Empty, 100, 100), Ok(WriteReadOutcome::ThreadCommand));
    assert_eq!(
        p.ioctl_write_read(BINDER_GET_FROZEN_INFO, WriteReadArg::FrozenPid(100), 100, 100),
        Ok(WriteReadOutcome::FrozenStatusOf(100))
    );
    assert_eq!(
        p.ioctl_write_read(BINDER_GET_NODE_DEBUG_INFO, WriteReadArg::NodePtr(0), 100, 100),
        Ok(WriteReadOutcome::NodeDebugInfo(NodeDebugInfo { ptr: 0, cookie: 0, has_strong_ref: 0, has_weak_ref: 0 }))
    );
    let q = NodeInfoForRef { handle: 1, strong_count: 0, weak_count: 0, reserved1: 0, reserved2: 0, reserved3: 0 };
    assert_eq!(p.ioctl_write_read(BINDER_GET_NODE_INFO_FOR_REF, WriteReadArg::NodeInfo(q), 100, 100), Err(Errno::Perm));
    assert_eq!(p.ioctl_write_read(BINDER_SET_MAX_THREADS, WriteReadArg::Empty, 100, 100), Err(Errno::Inval));
    assert_eq!(p.ioctl_write_read(BINDER_VERSION, WriteReadArg::Empty, 7, 100), Err(Errno::Inval));
}
