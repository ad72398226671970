//! The ioctl surface: command decoding, dispatch, and the freeze queries that span processes.

use vstd::prelude::*;
use crate::errors::Errno;
use crate::context::Context;
use crate::node_ref::NodeRef;
use crate::lifecycle::BINDER_CURRENT_PROTOCOL_VERSION;
use crate::process::{manager_outcome, NodeDebugInfo, NodeInfoForRef, Process};

verus! {

pub const BINDER_WRITE_READ: u32 = 0xc030_6201;
pub const BINDER_SET_MAX_THREADS: u32 = 0x4004_6205;
pub const BINDER_SET_CONTEXT_MGR: u32 = 0x4004_6207;
pub const BINDER_THREAD_EXIT: u32 = 0x4004_6208;
pub const BINDER_VERSION: u32 = 0xc004_6209;
pub const BINDER_GET_NODE_DEBUG_INFO: u32 = 0xc018_620b;
pub const BINDER_GET_NODE_INFO_FOR_REF: u32 = 0xc018_620c;
pub const BINDER_SET_CONTEXT_MGR_EXT: u32 = 0x4018_620d;
pub const BINDER_FREEZE: u32 = 0x400c_620e;
pub const BINDER_GET_FROZEN_INFO: u32 = 0xc00c_620f;
pub const BINDER_ENABLE_ONEWAY_SPAM_DETECTION: u32 = 0x4004_6210;
pub const BINDER_GET_EXTENDED_ERROR: u32 = 0xc00c_6211;

/// Direction bits of an ioctl number: user space writes, the kernel reads.
pub const IOC_WRITE: u32 = 1;

/// Direction bits of an ioctl number: the kernel writes, user space reads.
pub const IOC_READ: u32 = 2;

/// Direction bits of an ioctl number: both ways.
pub const IOC_READ_WRITE: u32 = 3;

/// The commands of the device's ioctl surface.
#[derive(Clone, Copy, Debug, PartialEq, Eq, Structural)]
pub enum Command {
    SetMaxThreads,
    ThreadExit,
    SetContextMgr,
    SetContextMgrExt,
    EnableOnewaySpamDetection,
    Freeze,
    WriteRead,
    GetNodeDebugInfo,
    GetNodeInfoForRef,
    Version,
    GetFrozenInfo,
    GetExtendedError,
}

/// The direction bits of `cmd`.
pub open spec fn ioc_dir(cmd: u32) -> u32 {
    (cmd >> 30u32) & 3u32
}

/// The command that a write-only ioctl number names.
pub open spec fn write_only_command(cmd: u32) -> Option<Command> {
    if cmd == BINDER_SET_MAX_THREADS {
        Some(Command::SetMaxThreads)
    } else if cmd == BINDER_THREAD_EXIT {
        Some(Command::ThreadExit)
    } else if cmd == BINDER_SET_CONTEXT_MGR {
        Some(Command::SetContextMgr)
    } else if cmd == BINDER_SET_CONTEXT_MGR_EXT {
        Some(Command::SetContextMgrExt)
    } else if cmd == BINDER_ENABLE_ONEWAY_SPAM_DETECTION {
        Some(Command::EnableOnewaySpamDetection)
    } else if cmd == BINDER_FREEZE {
        Some(Command::Freeze)
    } else {
        None
    }
}

/// The command that a read/write ioctl number names.
pub open spec fn write_read_command(cmd: u32) -> Option<Command> {
    if cmd == BINDER_WRITE_READ {
        Some(Command::WriteRead)
    } else if cmd == BINDER_GET_NODE_DEBUG_INFO {
        Some(Command::GetNodeDebugInfo)
    } else if cmd == BINDER_GET_NODE_INFO_FOR_REF {
        Some(Command::GetNodeInfoForRef)
    } else if cmd == BINDER_VERSION {
        Some(Command::Version)
    } else if cmd == BINDER_GET_FROZEN_INFO {
        Some(Command::GetFrozenInfo)
    } else if cmd == BINDER_GET_EXTENDED_ERROR {
        Some(Command::GetExtendedError)
    } else {
        None
    }
}

/// Decodes an ioctl number: by its direction bits first, then within the
/// commands of that direction; anything else is `Inval`.
pub fn decode_ioctl(cmd: u32) -> (r: Result<Command, Errno>)
    ensures
        ioc_dir(cmd) == IOC_WRITE ==> match write_only_command(cmd) {
            Some(c) => r == Ok::<Command, Errno>(c),
            None => r == Err::<Command, Errno>(Errno::Inval),
        },
        ioc_dir(cmd) == IOC_READ_WRITE ==> match write_read_command(cmd) {
            Some(c) => r == Ok::<Command, Errno>(c),
            None => r == Err::<Command, Errno>(Errno::Inval),
        },
        ioc_dir(cmd) != IOC_WRITE && ioc_dir(cmd) != IOC_READ_WRITE ==> r == Err::<Command, Errno>(Errno::Inval),
{
    let dir = (cmd >> 30u32) & 3u32;
    if dir == IOC_WRITE {
        if cmd == BINDER_SET_MAX_THREADS {
            Ok(Command::SetMaxThreads)
        } else if cmd == BINDER_THREAD_EXIT {
            Ok(Command::ThreadExit)
        } else if cmd == BINDER_SET_CONTEXT_MGR {
            Ok(Command::SetContextMgr)
        } else if cmd == BINDER_SET_CONTEXT_MGR_EXT {
            Ok(Command::SetContextMgrExt)
        } else if cmd == BINDER_ENABLE_ONEWAY_SPAM_DETECTION {
            Ok(Command::EnableOnewaySpamDetection)
        } else if cmd == BINDER_FREEZE {
            Ok(Command::Freeze)
        } else {
            Err(Errno::Inval)
        }
    } else if dir == IOC_READ_WRITE {
        if cmd == BINDER_WRITE_READ {
            Ok(Command::WriteRead)
        } else if cmd == BINDER_GET_NODE_DEBUG_INFO {
            Ok(Command::GetNodeDebugInfo)
        } else if cmd == BINDER_GET_NODE_INFO_FOR_REF {
            Ok(Command::GetNodeInfoForRef)
        } else if cmd == BINDER_VERSION {
            Ok(Command::Version)
        } else if cmd == BINDER_GET_FROZEN_INFO {
            Ok(Command::GetFrozenInfo)
        } else if cmd == BINDER_GET_EXTENDED_ERROR {
            Ok(Command::GetExtendedError)
        } else {
            Err(Errno::Inval)
        }
    } else {
        Err(Errno::Inval)
    }
}

/// The freeze state of all processes of one pid, as user space reads it.
#[derive(Clone, Copy, Debug, PartialEq, Eq, Structural)]
pub struct FrozenStatus {
    pub pid: i32,
    /// Bit 0: a sync transaction arrived while frozen; bit 1: transactions are pending.
    pub sync_recv: u32,
    /// Bit 0: an async transaction arrived while frozen.
    pub async_recv: u32,
}

pub open spec fn some_process_with(procs: Seq<Process>, pid: i32, f: spec_fn(Process) -> bool) -> bool {
    exists|i: int| 0 <= i < procs.len() && procs[i].pid == pid && f(#[trigger] procs[i])
}

pub open spec fn bit(b: bool, v: u32) -> u32 {
    if b {
        v
    } else {
        0
    }
}

/// The status gathered over the processes of `pid`.
pub open spec fn frozen_status_of(procs: Seq<Process>, pid: i32) -> FrozenStatus {
    FrozenStatus {
        pid,
        sync_recv: bit(some_process_with(procs, pid, |p: Process| p.inner.sync_recv), 1) | bit(
            some_process_with(procs, pid, |p: Process| p.inner.spec_txns_pending()),
            2,
        ),
        async_recv: bit(some_process_with(procs, pid, |p: Process| p.inner.async_recv), 1),
    }
}

/// Gathers the freeze state of every process of `pid`; `Inval` when there is none.
pub fn get_frozen_status(procs: &Vec<Process>, pid: i32) -> (r: Result<FrozenStatus, Errno>)
    ensures
        !some_process_with(procs@, pid, |p: Process| true) ==> r == Err::<FrozenStatus, Errno>(Errno::Inval),
        some_process_with(procs@, pid, |p: Process| true) ==> r == Ok::<FrozenStatus, Errno>(frozen_status_of(procs@, pid)),
{
    let mut found = false;
    let mut sync = false;
    let mut pending = false;
    let mut asyn = false;
    let mut i: usize = 0;
    while i < procs.len()
        invariant
            0 <= i <= procs@.len(),
            found == some_process_with(procs@.take(i as int), pid, |p: Process| true),
            sync == some_process_with(procs@.take(i as int), pid, |p: Process| p.inner.sync_recv),
            pending == some_process_with(procs@.take(i as int), pid, |p: Process| p.inner.spec_txns_pending()),
            asyn == some_process_with(procs@.take(i as int), pid, |p: Process| p.inner.async_recv),
        decreases procs@.len() - i,
    {
        let p = &procs[i];
        let ghost before = procs@.take(i as int);
        let ghost after = procs@.take(i + 1);
        if p.pid == pid {
            found = true;
            sync = sync || p.inner.sync_recv;
            asyn = asyn || p.inner.async_recv;
            pending = pending || p.inner.txns_pending_locked();
        }
        proof {
            assert(after =~= before.push(procs@[i as int]));
            assert forall|f: spec_fn(Process) -> bool| #[trigger] some_process_with(after, pid, f) == (some_process_with(before, pid, f)
                || (procs@[i as int].pid == pid && f(procs@[i as int]))) by {
                if some_process_with(after, pid, f) {
                    let k = choose|k: int| 0 <= k < after.len() && after[k].pid == pid && f(#[trigger] after[k]);
                    if k < before.len() {
                        assert(before[k] == after[k]);
                    }
                }
                if some_process_with(before, pid, f) {
                    let k = choose|k: int| 0 <= k < before.len() && before[k].pid == pid && f(#[trigger] before[k]);
                    assert(after[k] == before[k]);
                }
                if procs@[i as int].pid == pid && f(procs@[i as int]) {
                    assert(after[i as int] == procs@[i as int]);
                }
            }
        }
        i = i + 1;
    }
    proof {
        assert(procs@.take(procs@.len() as int) =~= procs@);
    }
    if !found {
        return Err(Errno::Inval);
    }
    let s: u32 = (if sync {
        1u32
    } else {
        0u32
    }) | (if pending {
        2u32
    } else {
        0u32
    });
    Ok(FrozenStatus {
        pid,
        sync_recv: s,
        async_recv: if asyn {
            1
        } else {
            0
        },
    })
}

/// The positions in `procs` of the processes of `pid`, in order.
pub fn freeze_targets(procs: &Vec<Process>, pid: i32) -> (r: Vec<usize>)
    ensures
        forall|k: int| 0 <= k < r@.len() ==> r@[k] < procs@.len() && procs@[r@[k] as int].pid == pid,
        forall|i: int| 0 <= i < procs@.len() && procs@[i].pid == pid ==> r@.contains(i as usize),
        forall|a: int, b: int| 0 <= a < b < r@.len() ==> r@[a] < r@[b],
{
    let mut out: Vec<usize> = Vec::new();
    let mut i: usize = 0;
    while i < procs.len()
        invariant
            0 <= i <= procs@.len(),
            forall|k: int| 0 <= k < out@.len() ==> out@[k] < i && procs@[out@[k] as int].pid == pid,
            forall|j: int| 0 <= j < i && procs@[j].pid == pid ==> out@.contains(j as usize),
            forall|a: int, b: int| 0 <= a < b < out@.len() ==> out@[a] < out@[b],
        decreases procs@.len() - i,
    {
        if procs[i].pid == pid {
            let ghost before = out@;
            out.push(i);
            proof {
                assert forall|j: int| 0 <= j < i + 1 && procs@[j].pid == pid implies out@.contains(j as usize) by {
                    if j < i {
                        assert(before.contains(j as usize));
                        let x = choose|x: int| 0 <= x < before.len() && before[x] == j as usize;
                        assert(out@[x] == before[x]);
                    } else {
                        assert(out@[before.len() as int] == j as usize);
                    }
                }
            }
        }
        i = i + 1;
    }
    out
}

/// `d` describes the first node of `nodes` above `ptr`, or is all zero
/// when there is none.
pub open spec fn debug_info_after(nodes: Map<u64, crate::node::Node>, ptr: u64, d: NodeDebugInfo) -> bool {
    if exists|p: u64| #[trigger] nodes.contains_key(p) && p > ptr {
        exists|k: u64|
            {
                &&& #[trigger] nodes.contains_key(k)
                &&& k > ptr
                &&& forall|p: u64| #[trigger] nodes.contains_key(p) && p > ptr ==> k <= p
                &&& d == NodeDebugInfo::of(nodes[k])
            }
    } else {
        d == NodeDebugInfo::empty()
    }
}

/// What `get_node_info_from_ref` answers, wrapped for user memory.
pub open spec fn node_info_outcome(p: &Process, info: NodeInfoForRef, r: Result<WriteReadOutcome, Errno>) -> bool {
    if info.has_nonzero_fields() {
        r == Err::<WriteReadOutcome, Errno>(Errno::Inval)
    } else if !p.inner.is_manager {
        r == Err::<WriteReadOutcome, Errno>(Errno::Perm)
    } else if p.node_refs.by_handle@.contains_key(info.handle) && p.node_refs.by_handle@[info.handle].node_ref.strong != 0 {
        r == Ok::<WriteReadOutcome, Errno>(
            WriteReadOutcome::NodeInfoForRef(NodeRef::spec_single(p.node_refs.by_handle@[info.handle].node_ref.node, true)),
        )
    } else {
        r == Err::<WriteReadOutcome, Errno>(Errno::Inval)
    }
}

/// The argument of a write-only command, as copied from user memory.
#[derive(Clone, Copy, Debug, PartialEq, Eq, Structural)]
pub enum WriteOnlyArg {
    Empty,
    Value(u32),
    /// A node description: user pointer, cookie and flags.
    Node { ptr: u64, cookie: u64, flags: u32 },
    /// A freeze request: pid, enable flag and timeout.
    Freeze { pid: i32, enable: u32, timeout: u64 },
}

/// What is left to do after a write-only command.
#[derive(Clone, Copy, Debug, PartialEq, Eq, Structural)]
pub enum WriteOnlyOutcome {
    Done,
    /// Every process of `pid`, in every context, must apply this freeze request.
    FreezeAll { pid: i32, enable: u32, timeout: u64 },
}

impl Process {
    /// Runs a write-only command for the calling thread `tid` of the group
    /// `caller_leader`. A freeze concerns other processes too and is handed
    /// back to the caller. `Inval` for a caller of another process, a
    /// command number that is not write-only, or an argument of the wrong shape.
    pub fn ioctl_write_only(
        &mut self,
        ctx: &mut Context,
        cmd: u32,
        arg: WriteOnlyArg,
        caller_leader: i32,
        tid: i32,
        new_global_id: u64,
        euid: u32,
    ) -> (r: Result<WriteOnlyOutcome, Errno>)
        requires
            old(self).wf(),
        ensures
            Process::dead_stays_dead(old(self), final(self)),
            final(self).wf(),
            final(self).id == old(self).id,
            final(self).pid == old(self).pid,
            caller_leader != old(self).pid ==> r == Err::<WriteOnlyOutcome, Errno>(Errno::Inval),
            caller_leader == old(self).pid && (ioc_dir(cmd) != IOC_WRITE || write_only_command(cmd) is None) ==> r
                == Err::<WriteOnlyOutcome, Errno>(Errno::Inval),
            caller_leader == old(self).pid && ioc_dir(cmd) == IOC_WRITE ==> match (write_only_command(cmd), arg) {
                (Some(Command::SetMaxThreads), WriteOnlyArg::Value(v)) => r == Ok::<WriteOnlyOutcome, Errno>(
                    WriteOnlyOutcome::Done,
                ) && final(self).inner.max_threads == v,
                (Some(Command::ThreadExit), _) => r == Ok::<WriteOnlyOutcome, Errno>(WriteOnlyOutcome::Done)
                    && !final(self).inner.threads@.contains_key(tid) && !final(self).inner.ready_threads@.contains(tid),
                (Some(Command::SetContextMgr), _) => exists|res: Result<(), Errno>|
                    {
                        &&& #[trigger] manager_outcome(old(self), final(self), old(ctx), final(ctx), None, new_global_id, euid, res)
                        &&& r == match res {
                            Ok(()) => Ok::<WriteOnlyOutcome, Errno>(WriteOnlyOutcome::Done),
                            Err(e) => Err::<WriteOnlyOutcome, Errno>(e),
                        }
                    },
                (Some(Command::SetContextMgrExt), WriteOnlyArg::Node { ptr, cookie, flags }) => exists|res: Result<(), Errno>|
                    {
                        &&& #[trigger] manager_outcome(
                            old(self),
                            final(self),
                            old(ctx),
                            final(ctx),
                            Some((ptr, cookie, flags)),
                            new_global_id,
                            euid,
                            res,
                        )
                        &&& r == match res {
                            Ok(()) => Ok::<WriteOnlyOutcome, Errno>(WriteOnlyOutcome::Done),
                            Err(e) => Err::<WriteOnlyOutcome, Errno>(e),
                        }
                    },
                (Some(Command::EnableOnewaySpamDetection), WriteOnlyArg::Value(v)) => r == Ok::<WriteOnlyOutcome, Errno>(
                    WriteOnlyOutcome::Done,
                ) && final(self).inner.oneway_spam_detection_enabled == (v != 0),
                (Some(Command::Freeze), WriteOnlyArg::Freeze { pid, enable, timeout }) => r == Ok::<WriteOnlyOutcome, Errno>(
                    WriteOnlyOutcome::FreezeAll { pid, enable, timeout },
                ),
                (Some(_), _) => r == Err::<WriteOnlyOutcome, Errno>(Errno::Inval),
                (None, _) => r == Err::<WriteOnlyOutcome, Errno>(Errno::Inval),
            },
    {
        let tid = self.get_current_thread(caller_leader, tid)?;
        let command = match decode_ioctl(cmd) {
            Ok(c) => c,
            Err(e) => {
                return Err(e);
            },
        };
        if (cmd >> 30u32) & 3u32 != IOC_WRITE {
            return Err(Errno::Inval);
        }
        match (command, arg) {
            (Command::SetMaxThreads, WriteOnlyArg::Value(v)) => {
                self.set_max_threads(v);
                Ok(WriteOnlyOutcome::Done)
            },
            (Command::ThreadExit, _) => {
                let _ = self.remove_thread(tid);
                Ok(WriteOnlyOutcome::Done)
            },
            (Command::SetContextMgr, _) => {
                let res = self.set_as_manager(ctx, None, tid, new_global_id, euid);
                assert(manager_outcome(old(self), self, old(ctx), &*ctx, None, new_global_id, euid, res));
                match res {
                    Ok(()) => Ok(WriteOnlyOutcome::Done),
                    Err(e) => Err(e),
                }
            },
            (Command::SetContextMgrExt, WriteOnlyArg::Node { ptr, cookie, flags }) => {
                let res = self.set_as_manager(ctx, Some((ptr, cookie, flags)), tid, new_global_id, euid);
                assert(manager_outcome(
                    old(self),
                    self,
                    old(ctx),
                    &*ctx,
                    Some((ptr, cookie, flags)),
                    new_global_id,
                    euid,
                    res,
                ));
                match res {
                    Ok(()) => Ok(WriteOnlyOutcome::Done),
                    Err(e) => Err(e),
                }
            },
            (Command::EnableOnewaySpamDetection, WriteOnlyArg::Value(v)) => {
                self.set_oneway_spam_detection_enabled(v);
                Ok(WriteOnlyOutcome::Done)
            },
            (Command::Freeze, WriteOnlyArg::Freeze { pid, enable, timeout }) => Ok(
                WriteOnlyOutcome::FreezeAll { pid, enable, timeout },
            ),
            _ => Err(Errno::Inval),
        }
    }
}

/// The argument of a read/write command, as copied from user memory.
#[derive(Clone, Copy, Debug, PartialEq, Eq, Structural)]
pub enum WriteReadArg {
    Empty,
    /// The user pointer to continue a node listing after.
    NodePtr(u64),
    NodeInfo(NodeInfoForRef),
    /// The pid whose freeze state is asked for.
    FrozenPid(i32),
}

/// What a read/write command hands back for user memory.
#[derive(Clone, Copy, Debug, PartialEq, Eq, Structural)]
pub enum WriteReadOutcome {
    /// The command belongs to the calling thread, which runs it.
    ThreadCommand,
    NodeDebugInfo(NodeDebugInfo),
    /// The reference behind the asked handle; `peers::node_info_for_ref`
    /// reads its node's counts from the owner.
    NodeInfoForRef(NodeRef),
    Version(i32),
    /// The freeze state of every process of this pid, in every context, is asked for.
    FrozenStatusOf(i32),
}

impl Process {
    /// Runs a read/write command for the calling thread `tid` of the group
    /// `caller_leader`. `Inval` for a caller of another process, a command
    /// number that is not read/write, or an argument of the wrong shape.
    pub fn ioctl_write_read(&mut self, cmd: u32, arg: WriteReadArg, caller_leader: i32, tid: i32) -> (r: Result<
        WriteReadOutcome,
        Errno,
    >)
        requires
            old(self).wf(),
        ensures
            Process::dead_stays_dead(old(self), final(self)),
            final(self).wf(),
            final(self).id == old(self).id,
            final(self).pid == old(self).pid,
            final(self).inner.nodes@ == old(self).inner.nodes@,
            final(self).node_refs.by_handle@ == old(self).node_refs.by_handle@,
            final(self).inner.is_manager == old(self).inner.is_manager,
            caller_leader != old(self).pid ==> r == Err::<WriteReadOutcome, Errno>(Errno::Inval),
            caller_leader == old(self).pid && (ioc_dir(cmd) != IOC_READ_WRITE || write_read_command(cmd) is None) ==> r
                == Err::<WriteReadOutcome, Errno>(Errno::Inval),
            caller_leader == old(self).pid && ioc_dir(cmd) == IOC_READ_WRITE ==> match (write_read_command(cmd), arg) {
                (Some(Command::WriteRead), _) => r == Ok::<WriteReadOutcome, Errno>(WriteReadOutcome::ThreadCommand),
                (Some(Command::GetExtendedError), _) => r == Ok::<WriteReadOutcome, Errno>(WriteReadOutcome::ThreadCommand),
                (Some(Command::Version), _) => r == Ok::<WriteReadOutcome, Errno>(
                    WriteReadOutcome::Version(BINDER_CURRENT_PROTOCOL_VERSION),
                ),
                (Some(Command::GetFrozenInfo), WriteReadArg::FrozenPid(pid)) => r == Ok::<WriteReadOutcome, Errno>(
                    WriteReadOutcome::FrozenStatusOf(pid),
                ),
                (Some(Command::GetNodeDebugInfo), WriteReadArg::NodePtr(ptr)) => r matches Ok(
                    WriteReadOutcome::NodeDebugInfo(d),
                ) && debug_info_after(old(self).inner.nodes@, ptr, d),
                (Some(Command::GetNodeInfoForRef), WriteReadArg::NodeInfo(info)) => node_info_outcome(old(self), info, r),
                (Some(_), _) => r == Err::<WriteReadOutcome, Errno>(Errno::Inval),
                (None, _) => r == Err::<WriteReadOutcome, Errno>(Errno::Inval),
            },
    {
        let _tid = self.get_current_thread(caller_leader, tid)?;
        let command = match decode_ioctl(cmd) {
            Ok(c) => c,
            Err(e) => {
                return Err(e);
            },
        };
        if (cmd >> 30u32) & 3u32 != IOC_READ_WRITE {
            return Err(Errno::Inval);
        }
        match (command, arg) {
            (Command::WriteRead, _) => Ok(WriteReadOutcome::ThreadCommand),
            (Command::GetExtendedError, _) => Ok(WriteReadOutcome::ThreadCommand),
            (Command::Version, _) => Ok(WriteReadOutcome::Version(self.version())),
            (Command::GetFrozenInfo, WriteReadArg::FrozenPid(pid)) => Ok(WriteReadOutcome::FrozenStatusOf(pid)),
            (Command::GetNodeDebugInfo, WriteReadArg::NodePtr(ptr)) => Ok(
                WriteReadOutcome::NodeDebugInfo(self.get_node_debug_info(ptr)),
            ),
            (Command::GetNodeInfoForRef, WriteReadArg::NodeInfo(info)) => {
                match self.get_node_info_from_ref(info) {
                    Ok(nr) => Ok(WriteReadOutcome::NodeInfoForRef(nr)),
                    Err(e) => Err(e),
                }
            },
            _ => Err(Errno::Inval),
        }
    }
}

} // verus!
