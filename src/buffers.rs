//! The buffer arena of a process: mapping it, and handing buffers out and back.

use vstd::prelude::*;
use crate::errors::Errno;
use crate::inner::{Mapping, ProcessInner};
use crate::process::Process;
use crate::range_alloc::{
    end_page, first_page, freed_pages, reserve_outcome, valid_range, Reservation, PAGE_SIZE,
};

verus! {

/// VM flag: the mapping is writable.
pub const VM_WRITE: u64 = 0x2;

/// VM flag: the mapping may be made writable.
pub const VM_MAYWRITE: u64 = 0x20;

/// VM flag: the mapping is not copied on fork.
pub const VM_DONTCOPY: u64 = 0x20000;

/// VM flag: the mapping may hold both page-backed and raw pages.
pub const VM_MIXEDMAP: u64 = 0x1000_0000;

/// The largest buffer arena, 4 MiB.
pub const SZ_4M: usize = 0x40_0000;

/// The size of the arena mapped over `[start, end)`.
pub open spec fn mapping_size(start: usize, end: usize) -> int {
    if end - start < SZ_4M {
        end - start
    } else {
        SZ_4M as int
    }
}

/// A buffer handed out of the arena.
#[derive(Clone, Copy, Debug, PartialEq, Eq, Structural)]
pub struct Allocation {
    pub offset: usize,
    pub size: usize,
    /// The user address of the buffer.
    pub ptr: usize,
    pub oneway_spam_detected: bool,
    pub info: Option<u64>,
    /// The first page the buffer touches.
    pub first_page: usize,
    /// One past the last page the buffer touches.
    pub end_page: usize,
}

impl Allocation {
    pub open spec fn spec_new(offset: usize, size: usize, address: usize, spam: bool, info: Option<u64>) -> Allocation {
        Allocation {
            offset,
            size,
            ptr: (address + offset) as usize,
            oneway_spam_detected: spam,
            info,
            first_page: first_page(offset as int) as usize,
            end_page: end_page(offset as int, size as int) as usize,
        }
    }

    pub fn new(offset: usize, size: usize, address: usize, spam: bool, info: Option<u64>) -> (r: Allocation)
        requires
            address + offset + size <= usize::MAX,
        ensures
            r == Allocation::spec_new(offset, size, address, spam, info),
    {
        let end = ((offset as u128 + size as u128 + (PAGE_SIZE - 1) as u128) / PAGE_SIZE as u128) as usize;
        Allocation {
            offset,
            size,
            ptr: address + offset,
            oneway_spam_detected: spam,
            info,
            first_page: offset / PAGE_SIZE,
            end_page: end,
        }
    }
}

impl Process {
    /// Reserves `size` bytes of the buffer arena; `DeadReply` when nothing
    /// is mapped. The caller must make pages `[first_page, end_page)` usable.
    pub fn buffer_alloc(&mut self, size: usize, is_oneway: bool, from_pid: i32) -> (r: Result<Allocation, Errno>)
        requires
            old(self).wf(),
        ensures
            final(self).node_refs == old(self).node_refs,
            final(self).inner == (ProcessInner { mapping: final(self).inner.mapping, ..old(self).inner }),
            final(self).wf(),
            final(self).id == old(self).id,
            final(self).pid == old(self).pid,
            Process::dead_stays_dead(old(self), final(self)),
            old(self).inner.mapping is None ==> r == Err::<Allocation, Errno>(Errno::DeadReply) && final(self).inner.mapping is None,
            old(self).inner.mapping matches Some(m) ==> final(self).inner.mapping is Some && {
                let n = final(self).inner.mapping->Some_0;
                &&& n.address == m.address
                &&& n.alloc.size == m.alloc.size
                &&& n.alloc.oneway_spam_detected == m.alloc.oneway_spam_detected
                &&& exists|res: Result<usize, Errno>|
                    {
                        &&& #[trigger] reserve_outcome(&m.alloc, &n.alloc, size, is_oneway, from_pid, res)
                        &&& match res {
                            Ok(offset) => r == Ok::<Allocation, Errno>(
                                Allocation::spec_new(offset, size, m.address, m.alloc.oneway_spam_detected, None),
                            ),
                            Err(e) => r == Err::<Allocation, Errno>(e),
                        }
                    }
            },
            final(self).inner.work@ == old(self).inner.work@,
            final(self).inner.threads@ == old(self).inner.threads@,
            final(self).inner.nodes@ == old(self).inner.nodes@,
    {
        let mut mapping = match self.inner.mapping.take() {
            None => {
                return Err(Errno::DeadReply);
            },
            Some(m) => m,
        };
        let res = mapping.alloc.reserve_new(size, is_oneway, from_pid);
        let address = mapping.address;
        let spam = mapping.alloc.oneway_spam_detected;
        self.inner.mapping = Some(mapping);
        match res {
            Ok(offset) => {
                assert(valid_range(self.inner.mapping->Some_0.alloc.ranges@.last(), self.inner.mapping->Some_0.alloc.size));
                Ok(Allocation::new(offset, size, address, spam, None))
            },
            Err(e) => Err(e),
        }
    }

    /// Takes the committed buffer at user address `ptr` back into use.
    pub fn buffer_get(&mut self, ptr: usize) -> (r: Option<Allocation>)
        requires
            old(self).wf(),
        ensures
            final(self).node_refs == old(self).node_refs,
            final(self).inner == (ProcessInner { mapping: final(self).inner.mapping, ..old(self).inner }),
            final(self).wf(),
            final(self).id == old(self).id,
            final(self).pid == old(self).pid,
            Process::dead_stays_dead(old(self), final(self)),
            old(self).inner.mapping is None ==> r is None && final(self).inner.mapping is None,
            old(self).inner.mapping matches Some(m) ==> final(self).inner.mapping is Some && {
                let n = final(self).inner.mapping->Some_0;
                &&& n.address == m.address
                &&& n.alloc.size == m.alloc.size
                &&& n.alloc.oneway_spam_detected == m.alloc.oneway_spam_detected
                &&& ptr < m.address ==> r is None && n.alloc.ranges@ == m.alloc.ranges@
                &&& ptr >= m.address ==> {
                    let offset = (ptr - m.address) as usize;
                    match m.alloc.index_of(offset) {
                        Some(i) if m.alloc.ranges@[i].committed => {
                            let res = m.alloc.ranges@[i];
                            &&& r == Some(Allocation::spec_new(offset, res.size, m.address, m.alloc.oneway_spam_detected, res.info))
                            &&& n.alloc.ranges@ == m.alloc.ranges@.update(i, Reservation { committed: false, info: None, ..res })
                        },
                        _ => r is None && n.alloc.ranges@ == m.alloc.ranges@,
                    }
                }
            },
            final(self).inner.work@ == old(self).inner.work@,
            final(self).inner.threads@ == old(self).inner.threads@,
            final(self).inner.nodes@ == old(self).inner.nodes@,
    {
        let mut mapping = match self.inner.mapping.take() {
            None => {
                return None;
            },
            Some(m) => m,
        };
        if ptr < mapping.address {
            self.inner.mapping = Some(mapping);
            return None;
        }
        let offset = ptr - mapping.address;
        let res = mapping.alloc.reserve_existing(offset);
        let address = mapping.address;
        let spam = mapping.alloc.oneway_spam_detected;
        self.inner.mapping = Some(mapping);
        match res {
            Ok((size, info)) => {
                proof {
                    let m = old(self).inner.mapping->Some_0;
                    let i = m.alloc.index_of(offset)->Some_0;
                    assert(valid_range(m.alloc.ranges@[i], m.alloc.size));
                }
                Some(Allocation::new(offset, size, address, spam, info))
            },
            Err(_) => None,
        }
    }

    /// Releases the reserved buffer at user address `ptr`; returns the pages
    /// `[first, end)` that the caller must stop using.
    pub fn buffer_raw_free(&mut self, ptr: usize) -> (r: Option<(usize, usize)>)
        requires
            old(self).wf(),
        ensures
            final(self).node_refs == old(self).node_refs,
            final(self).inner == (ProcessInner { mapping: final(self).inner.mapping, ..old(self).inner }),
            final(self).wf(),
            final(self).id == old(self).id,
            final(self).pid == old(self).pid,
            Process::dead_stays_dead(old(self), final(self)),
            old(self).inner.mapping is None ==> r is None && final(self).inner.mapping is None,
            old(self).inner.mapping matches Some(m) ==> final(self).inner.mapping is Some && {
                let n = final(self).inner.mapping->Some_0;
                &&& n.address == m.address
                &&& n.alloc.size == m.alloc.size
                &&& n.alloc.oneway_spam_detected == m.alloc.oneway_spam_detected
                &&& ptr < m.address ==> r is None && n.alloc.ranges@ == m.alloc.ranges@
                &&& ptr >= m.address ==> {
                    let offset = (ptr - m.address) as usize;
                    match m.alloc.index_of(offset) {
                        Some(i) if !m.alloc.ranges@[i].committed => {
                            let rest = m.alloc.ranges@.remove(i);
                            let pages = freed_pages(rest, offset as int, m.alloc.ranges@[i].size as int);
                            &&& n.alloc.ranges@ == rest
                            &&& r matches Some(p) && p.0 == pages.0 && p.1 == pages.1
                        },
                        _ => r is None && n.alloc.ranges@ == m.alloc.ranges@,
                    }
                }
            },
            final(self).inner.work@ == old(self).inner.work@,
            final(self).inner.threads@ == old(self).inner.threads@,
            final(self).inner.nodes@ == old(self).inner.nodes@,
    {
        let mut mapping = match self.inner.mapping.take() {
            None => {
                return None;
            },
            Some(m) => m,
        };
        if ptr < mapping.address {
            self.inner.mapping = Some(mapping);
            return None;
        }
        let offset = ptr - mapping.address;
        let res = mapping.alloc.reservation_abort(offset);
        self.inner.mapping = Some(mapping);
        match res {
            Ok(pages) => Some(pages),
            Err(_) => None,
        }
    }

    /// Commits the reserved buffer at `offset` with its bookkeeping, so
    /// that user space may free it; a failure is ignored.
    pub fn buffer_make_freeable(&mut self, offset: usize, info: Option<u64>)
        requires
            old(self).wf(),
        ensures
            final(self).node_refs == old(self).node_refs,
            final(self).inner == (ProcessInner { mapping: final(self).inner.mapping, ..old(self).inner }),
            final(self).wf(),
            final(self).id == old(self).id,
            final(self).pid == old(self).pid,
            Process::dead_stays_dead(old(self), final(self)),
            old(self).inner.mapping is None ==> final(self).inner.mapping is None,
            old(self).inner.mapping matches Some(m) ==> final(self).inner.mapping is Some && {
                let n = final(self).inner.mapping->Some_0;
                &&& n.address == m.address
                &&& n.alloc.size == m.alloc.size
                &&& n.alloc.oneway_spam_detected == m.alloc.oneway_spam_detected
                &&& match m.alloc.index_of(offset) {
                    Some(i) if !m.alloc.ranges@[i].committed => n.alloc.ranges@ == m.alloc.ranges@.update(
                        i,
                        Reservation { committed: true, info, ..m.alloc.ranges@[i] },
                    ),
                    _ => n.alloc.ranges@ == m.alloc.ranges@,
                }
            },
            final(self).inner.work@ == old(self).inner.work@,
            final(self).inner.threads@ == old(self).inner.threads@,
            final(self).inner.nodes@ == old(self).inner.nodes@,
    {
        let mut mapping = match self.inner.mapping.take() {
            None => {
                return;
            },
            Some(m) => m,
        };
        let _ = mapping.alloc.reservation_commit(offset, info);
        self.inner.mapping = Some(mapping);
    }

    /// Maps the buffer arena over the user range `[start, end)` with the
    /// given VM flags; returns the flags the mapping must carry.
    ///
    /// `Inval` when the caller is not this process, `start` is zero, the
    /// range is empty or backwards, or its size (capped at 4 MiB) is not a
    /// whole number of pages; `Perm` when the mapping asks for write access.
    pub fn mmap(&mut self, caller_leader: i32, start: usize, end: usize, flags: u64) -> (r: Result<u64, Errno>)
        requires
            old(self).wf(),
        ensures
            final(self).node_refs == old(self).node_refs,
            final(self).inner == (ProcessInner { mapping: final(self).inner.mapping, ..old(self).inner }),
            final(self).wf(),
            final(self).id == old(self).id,
            final(self).pid == old(self).pid,
            Process::dead_stays_dead(old(self), final(self)),
            r is Err ==> final(self).inner.mapping == old(self).inner.mapping,
            caller_leader != old(self).pid ==> r == Err::<u64, Errno>(Errno::Inval),
            caller_leader == old(self).pid && start == 0 ==> r == Err::<u64, Errno>(Errno::Inval),
            caller_leader == old(self).pid && start != 0 && flags & VM_WRITE != 0 ==> r == Err::<u64, Errno>(Errno::Perm),
            caller_leader == old(self).pid && start != 0 && flags & VM_WRITE == 0 ==> {
                let size = mapping_size(start, end);
                if end <= start || size % (PAGE_SIZE as int) != 0 {
                    r == Err::<u64, Errno>(Errno::Inval)
                } else {
                    &&& r == Ok::<u64, Errno>((flags | VM_DONTCOPY | VM_MIXEDMAP) & !VM_MAYWRITE)
                    &&& final(self).inner.mapping matches Some(m) && m.address == start && m.alloc.size == size
                        && m.alloc.ranges@.len() == 0
                }
            },
            final(self).inner.work@ == old(self).inner.work@,
            final(self).inner.threads@ == old(self).inner.threads@,
            final(self).inner.nodes@ == old(self).inner.nodes@,
    {
        if caller_leader != self.pid {
            return Err(Errno::Inval);
        }
        if start == 0 {
            return Err(Errno::Inval);
        }
        if flags & VM_WRITE != 0 {
            return Err(Errno::Perm);
        }
        let new_flags = (flags | VM_DONTCOPY | VM_MIXEDMAP) & !VM_MAYWRITE;
        self.create_mapping(start, end)?;
        Ok(new_flags)
    }

    /// Installs an empty arena over `[start, end)`, capped at 4 MiB.
    fn create_mapping(&mut self, start: usize, end: usize) -> (r: Result<(), Errno>)
        requires
            old(self).wf(),
        ensures
            final(self).node_refs == old(self).node_refs,
            final(self).inner == (ProcessInner { mapping: final(self).inner.mapping, ..old(self).inner }),
            final(self).wf(),
            final(self).id == old(self).id,
            final(self).pid == old(self).pid,
            Process::dead_stays_dead(old(self), final(self)),
            ({
                let size = mapping_size(start, end);
                if end <= start || size % (PAGE_SIZE as int) != 0 {
                    r == Err::<(), Errno>(Errno::Inval) && final(self).inner.mapping == old(self).inner.mapping
                } else {
                    &&& r == Ok::<(), Errno>(())
                    &&& final(self).inner.mapping matches Some(m) && m.address == start && m.alloc.size == size
                        && m.alloc.ranges@.len() == 0
                }
            }),
            final(self).inner.work@ == old(self).inner.work@,
            final(self).inner.threads@ == old(self).inner.threads@,
            final(self).inner.nodes@ == old(self).inner.nodes@,
    {
        if end <= start {
            return Err(Errno::Inval);
        }
        let len = end - start;
        let size = if len < SZ_4M {
            len
        } else {
            SZ_4M
        };
        if size % PAGE_SIZE != 0 {
            return Err(Errno::Inval);
        }
        self.inner.mapping = Some(Mapping::new(start, size));
        Ok(())
    }
}

} // verus!
