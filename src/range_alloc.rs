//! The allocator that splits the buffer arena into disjoint regions.

use vstd::prelude::*;
use crate::errors::Errno;

verus! {

pub const PAGE_SIZE: usize = 4096;

/// One reserved or committed region of the buffer arena.
#[derive(Clone, Copy, Debug, PartialEq, Eq, Structural)]
pub struct Reservation {
    pub offset: usize,
    pub size: usize,
    pub oneway: bool,
    pub pid: i32,
    /// Committed regions may be freed by user space; reserved ones are in use by the driver.
    pub committed: bool,
    /// Bookkeeping attached to a committed region.
    pub info: Option<u64>,
}

/// A nonempty region inside an arena of `total` bytes.
pub open spec fn valid_range(r: Reservation, total: usize) -> bool {
    r.size > 0 && r.end() <= total
}

impl Reservation {
    pub open spec fn end(self) -> int {
        self.offset + self.size
    }
}

/// The byte ranges `[a, a + n)` and `[b, b + m)` share no byte.
pub open spec fn disjoint(a: int, n: int, b: int, m: int) -> bool {
    a + n <= b || b + m <= a
}

/// An arena of `size` bytes split into disjoint regions.
pub struct RangeAllocator {
    pub size: usize,
    pub ranges: Vec<Reservation>,
    pub oneway_spam_detected: bool,
}

/// A region of `size` bytes at `c` lies in the arena and meets no region of `rs`.
pub open spec fn fits(rs: Seq<Reservation>, total: usize, c: int, size: usize) -> bool {
    &&& 0 <= c
    &&& c + size <= total
    &&& forall|i: int| 0 <= i < rs.len() ==> disjoint(c, size as int, rs[i].offset as int, rs[i].size as int)
}

/// The offsets a new region is tried at: the start of the arena and the end of each region.
pub open spec fn is_candidate(rs: Seq<Reservation>, c: int) -> bool {
    c == 0 || exists|i: int| 0 <= i < rs.len() && rs[i].end() == c
}

/// Page `p` holds a byte of some region of `rs`.
pub open spec fn page_in_use(rs: Seq<Reservation>, p: int) -> bool {
    exists|i: int|
        0 <= i < rs.len() && !disjoint(p * PAGE_SIZE, PAGE_SIZE as int, rs[i].offset as int, rs[i].size as int)
}

/// The first page that a region starting at `offset` touches.
pub open spec fn first_page(offset: int) -> int {
    offset / PAGE_SIZE as int
}

/// One past the last page that the region `[offset, offset + size)` touches.
pub open spec fn end_page(offset: int, size: int) -> int {
    (offset + size + PAGE_SIZE - 1) / PAGE_SIZE as int
}

/// The pages of the freed region `[offset, offset + size)` that no region of
/// `rest` touches, as a range `[first, end)`: the boundary pages are dropped
/// when a neighbour still uses them.
pub open spec fn freed_pages(rest: Seq<Reservation>, offset: int, size: int) -> (int, int) {
    let a = first_page(offset);
    let b = end_page(offset, size);
    let a2 = if a < b && page_in_use(rest, a) {
        a + 1
    } else {
        a
    };
    let b2 = if a2 < b && page_in_use(rest, b - 1) {
        b - 1
    } else {
        b
    };
    (a2, if b2 < a2 {
        a2
    } else {
        b2
    })
}

/// What `reserve_new` does, from the allocator `o` to the allocator `n`: a
/// nonzero size goes to the lowest candidate offset where it fits.
pub open spec fn reserve_outcome(
    o: &RangeAllocator,
    n: &RangeAllocator,
    size: usize,
    oneway: bool,
    pid: i32,
    r: Result<usize, Errno>,
) -> bool {
    if size == 0 {
        r == Err::<usize, Errno>(Errno::Inval) && n.ranges@ =~= o.ranges@
    } else if forall|c: int| is_candidate(o.ranges@, c) ==> !fits(o.ranges@, o.size, c, size) {
        r == Err::<usize, Errno>(Errno::NoSpc) && n.ranges@ =~= o.ranges@
    } else {
        exists|c: usize|
            {
                &&& r == Ok::<usize, Errno>(c)
                &&& is_candidate(o.ranges@, c as int)
                &&& fits(o.ranges@, o.size, c as int, size)
                &&& forall|d: int| is_candidate(o.ranges@, d) && fits(o.ranges@, o.size, d, size) ==> c <= d
                &&& n.ranges@ =~= o.ranges@.push(
                    Reservation { offset: c, size, oneway, pid, committed: false, info: None },
                )
            }
    }
}

impl RangeAllocator {
    pub open spec fn wf(&self) -> bool {
        &&& forall|i: int| 0 <= i < self.ranges@.len() ==> valid_range(#[trigger] self.ranges@[i], self.size)
        &&& forall|i: int, j: int|
            0 <= i < self.ranges@.len() && 0 <= j < self.ranges@.len() && i != j ==> disjoint(
                #[trigger] self.ranges@[i].offset as int,
                self.ranges@[i].size as int,
                #[trigger] self.ranges@[j].offset as int,
                self.ranges@[j].size as int,
            )
    }

    /// The position of the region starting at `offset`.
    pub open spec fn index_of(&self, offset: usize) -> Option<int> {
        if exists|i: int| 0 <= i < self.ranges@.len() && self.ranges@[i].offset == offset {
            Some(choose|i: int| 0 <= i < self.ranges@.len() && self.ranges@[i].offset == offset)
        } else {
            None
        }
    }

    pub fn new(size: usize) -> (r: RangeAllocator)
        ensures
            r.wf(),
            r.size == size,
            r.ranges@ == Seq::<Reservation>::empty(),
            !r.oneway_spam_detected,
    {
        RangeAllocator { size, ranges: Vec::new(), oneway_spam_detected: false }
    }

    /// Whether a region of `size` bytes at `c` fits.
    fn fits_at(&self, c: usize, size: usize) -> (r: bool)
        ensures
            r == fits(self.ranges@, self.size, c as int, size),
    {
        if c > self.size || size > self.size - c {
            return false;
        }
        let mut i: usize = 0;
        while i < self.ranges.len()
            invariant
                0 <= i <= self.ranges@.len(),
                c + size <= self.size,
                forall|k: int| 0 <= k < i ==> disjoint(c as int, size as int, self.ranges@[k].offset as int, self.ranges@[k].size as int),
            decreases self.ranges@.len() - i,
        {
            let r = self.ranges[i];
            if !(c + size <= r.offset || r.offset as u128 + r.size as u128 <= c as u128) {
                return false;
            }
            i = i + 1;
        }
        true
    }

    /// Reserves `size` bytes at the lowest candidate offset where they fit.
    pub fn reserve_new(&mut self, size: usize, oneway: bool, pid: i32) -> (r: Result<usize, Errno>)
        requires
            old(self).wf(),
        ensures
            final(self).wf(),
            final(self).size == old(self).size,
            final(self).oneway_spam_detected == old(self).oneway_spam_detected,
            reserve_outcome(old(self), final(self), size, oneway, pid, r),
    {
        if size == 0 {
            return Err(Errno::Inval);
        }
        let mut best: Option<usize> = if self.fits_at(0, size) {
            Some(0)
        } else {
            None
        };
        let mut i: usize = 0;
        while i < self.ranges.len()
            invariant
                self.wf(),
                0 <= i <= self.ranges@.len(),
                match best {
                    Some(b) => is_candidate(self.ranges@, b as int) && fits(self.ranges@, self.size, b as int, size)
                        && (fits(self.ranges@, self.size, 0, size) ==> b == 0)
                        && forall|k: int| 0 <= k < i && fits(self.ranges@, self.size, self.ranges@[k].end(), size) ==> b <= self.ranges@[k].end(),
                    None => !fits(self.ranges@, self.size, 0, size)
                        && forall|k: int| 0 <= k < i ==> !fits(self.ranges@, self.size, #[trigger] self.ranges@[k].end(), size),
                },
            decreases self.ranges@.len() - i,
        {
            let r = self.ranges[i];
            assert(valid_range(self.ranges@[i as int], self.size));
            let c = r.offset + r.size;
            if self.fits_at(c, size) {
                match best {
                    Some(b) => {
                        if c < b {
                            best = Some(c);
                        }
                    },
                    None => {
                        best = Some(c);
                    },
                }
            }
            i = i + 1;
        }
        match best {
            None => {
                assert forall|c: int| is_candidate(self.ranges@, c) implies !fits(self.ranges@, self.size, c, size) by {
                    if c != 0 {
                        let k = choose|k: int| 0 <= k < self.ranges@.len() && self.ranges@[k].end() == c;
                        assert(!fits(self.ranges@, self.size, self.ranges@[k].end(), size));
                    }
                }
                Err(Errno::NoSpc)
            },
            Some(c) => {
                assert forall|d: int| is_candidate(self.ranges@, d) && fits(self.ranges@, self.size, d, size) implies c <= d by {
                    if d != 0 {
                        let k = choose|k: int| 0 <= k < self.ranges@.len() && self.ranges@[k].end() == d;
                        assert(fits(self.ranges@, self.size, self.ranges@[k].end(), size));
                    }
                }
                let res = Reservation { offset: c, size, oneway, pid, committed: false, info: None };
                self.ranges.push(res);
                proof {
                    let n = old(self).ranges@.len() as int;
                    assert forall|i: int, j: int|
                        0 <= i < self.ranges@.len() && 0 <= j < self.ranges@.len() && i != j implies disjoint(
                            #[trigger] self.ranges@[i].offset as int,
                            self.ranges@[i].size as int,
                            #[trigger] self.ranges@[j].offset as int,
                            self.ranges@[j].size as int,
                        ) by {
                        if i == n {
                            assert(disjoint(c as int, size as int, old(self).ranges@[j].offset as int, old(self).ranges@[j].size as int));
                        } else if j == n {
                            assert(disjoint(c as int, size as int, old(self).ranges@[i].offset as int, old(self).ranges@[i].size as int));
                        }
                    }
                }
                Ok(c)
            },
        }
    }
    /// The position of the region that starts at `offset`.
    pub fn find(&self, offset: usize) -> (r: Option<usize>)
        requires
            self.wf(),
        ensures
            r is None <==> self.index_of(offset) is None,
            r matches Some(i) ==> self.index_of(offset) == Some(i as int),
            r matches Some(i) ==> i < self.ranges@.len() && self.ranges@[i as int].offset == offset,
    {
        let mut i: usize = 0;
        while i < self.ranges.len()
            invariant
                self.wf(),
                0 <= i <= self.ranges@.len(),
                forall|k: int| 0 <= k < i ==> self.ranges@[k].offset != offset,
            decreases self.ranges@.len() - i,
        {
            if self.ranges[i].offset == offset {
                proof {
                    assert(0 <= i < self.ranges@.len() && self.ranges@[i as int].offset == offset);
                    let j = choose|j: int| 0 <= j < self.ranges@.len() && self.ranges@[j].offset == offset;
                    if j != i {
                        assert(disjoint(self.ranges@[i as int].offset as int, self.ranges@[i as int].size as int, self.ranges@[j].offset as int, self.ranges@[j].size as int));
                    }
                }
                return Some(i);
            }
            i = i + 1;
        }
        None
    }

    /// Takes a committed region back into use; returns its size and bookkeeping.
    pub fn reserve_existing(&mut self, offset: usize) -> (r: Result<(usize, Option<u64>), Errno>)
        requires
            old(self).wf(),
        ensures
            final(self).wf(),
            final(self).size == old(self).size,
            final(self).oneway_spam_detected == old(self).oneway_spam_detected,
            match old(self).index_of(offset) {
                Some(i) if old(self).ranges@[i].committed => {
                    let res = old(self).ranges@[i];
                    &&& r == Ok::<(usize, Option<u64>), Errno>((res.size, res.info))
                    &&& final(self).ranges@ == old(self).ranges@.update(i, Reservation { committed: false, info: None, ..res })
                },
                _ => r == Err::<(usize, Option<u64>), Errno>(Errno::NoEnt) && final(self).ranges@ == old(self).ranges@,
            },
    {
        match self.find(offset) {
            Some(i) => {
                let res = self.ranges[i];
                if !res.committed {
                    return Err(Errno::NoEnt);
                }
                self.ranges.set(i, Reservation { committed: false, info: None, ..res });
                proof {
                    assert forall|a: int, b: int|
                        0 <= a < self.ranges@.len() && 0 <= b < self.ranges@.len() && a != b implies disjoint(
                            #[trigger] self.ranges@[a].offset as int,
                            self.ranges@[a].size as int,
                            #[trigger] self.ranges@[b].offset as int,
                            self.ranges@[b].size as int,
                        ) by {
                        assert(disjoint(old(self).ranges@[a].offset as int, old(self).ranges@[a].size as int, old(self).ranges@[b].offset as int, old(self).ranges@[b].size as int));
                    }
                    assert forall|a: int| 0 <= a < self.ranges@.len() implies valid_range(#[trigger] self.ranges@[a], self.size) by {
                        assert(valid_range(old(self).ranges@[a], old(self).size));
                    }
                }
                Ok((res.size, res.info))
            },
            None => Err(Errno::NoEnt),
        }
    }

    /// Marks a reserved region committed, with its bookkeeping.
    pub fn reservation_commit(&mut self, offset: usize, info: Option<u64>) -> (r: Result<(), Errno>)
        requires
            old(self).wf(),
        ensures
            final(self).wf(),
            final(self).size == old(self).size,
            final(self).oneway_spam_detected == old(self).oneway_spam_detected,
            match old(self).index_of(offset) {
                Some(i) if !old(self).ranges@[i].committed => {
                    &&& r == Ok::<(), Errno>(())
                    &&& final(self).ranges@ == old(self).ranges@.update(i, Reservation { committed: true, info, ..old(self).ranges@[i] })
                },
                _ => r == Err::<(), Errno>(Errno::NoEnt) && final(self).ranges@ == old(self).ranges@,
            },
    {
        match self.find(offset) {
            Some(i) => {
                let res = self.ranges[i];
                if res.committed {
                    return Err(Errno::NoEnt);
                }
                self.ranges.set(i, Reservation { committed: true, info, ..res });
                proof {
                    assert forall|a: int, b: int|
                        0 <= a < self.ranges@.len() && 0 <= b < self.ranges@.len() && a != b implies disjoint(
                            #[trigger] self.ranges@[a].offset as int,
                            self.ranges@[a].size as int,
                            #[trigger] self.ranges@[b].offset as int,
                            self.ranges@[b].size as int,
                        ) by {
                        assert(disjoint(old(self).ranges@[a].offset as int, old(self).ranges@[a].size as int, old(self).ranges@[b].offset as int, old(self).ranges@[b].size as int));
                    }
                    assert forall|a: int| 0 <= a < self.ranges@.len() implies valid_range(#[trigger] self.ranges@[a], self.size) by {
                        assert(valid_range(old(self).ranges@[a], old(self).size));
                    }
                }
                Ok(())
            },
            None => Err(Errno::NoEnt),
        }
    }

    /// Whether page `p` holds a byte of some region.
    fn page_used(&self, p: usize) -> (r: bool)
        ensures
            r == page_in_use(self.ranges@, p as int),
    {
        let start: u128 = p as u128 * PAGE_SIZE as u128;
        let mut i: usize = 0;
        while i < self.ranges.len()
            invariant
                0 <= i <= self.ranges@.len(),
                start == p * PAGE_SIZE,
                forall|k: int| 0 <= k < i ==> disjoint(p * PAGE_SIZE, PAGE_SIZE as int, self.ranges@[k].offset as int, self.ranges@[k].size as int),
            decreases self.ranges@.len() - i,
        {
            let r = self.ranges[i];
            if !(start + PAGE_SIZE as u128 <= r.offset as u128 || r.offset as u128 + r.size as u128 <= start) {
                return true;
            }
            i = i + 1;
        }
        false
    }

    /// Releases a reserved region; returns the pages `[first, end)` that no
    /// remaining region touches any more.
    pub fn reservation_abort(&mut self, offset: usize) -> (r: Result<(usize, usize), Errno>)
        requires
            old(self).wf(),
        ensures
            final(self).wf(),
            final(self).size == old(self).size,
            final(self).oneway_spam_detected == old(self).oneway_spam_detected,
            match old(self).index_of(offset) {
                Some(i) if !old(self).ranges@[i].committed => {
                    let rest = old(self).ranges@.remove(i);
                    let pages = freed_pages(rest, offset as int, old(self).ranges@[i].size as int);
                    &&& final(self).ranges@ == rest
                    &&& r matches Ok(p) && p.0 == pages.0 && p.1 == pages.1
                },
                _ => r == Err::<(usize, usize), Errno>(Errno::NoEnt) && final(self).ranges@ == old(self).ranges@,
            },
    {
        let i = match self.find(offset) {
            Some(i) => i,
            None => {
                return Err(Errno::NoEnt);
            },
        };
        let res = self.ranges[i];
        if res.committed {
            return Err(Errno::NoEnt);
        }
        assert(valid_range(old(self).ranges@[i as int], old(self).size));
        self.ranges.remove(i);
        proof {
            let o = old(self).ranges@;
            assert forall|a: int, b: int|
                0 <= a < self.ranges@.len() && 0 <= b < self.ranges@.len() && a != b implies disjoint(
                    #[trigger] self.ranges@[a].offset as int,
                    self.ranges@[a].size as int,
                    #[trigger] self.ranges@[b].offset as int,
                    self.ranges@[b].size as int,
                ) by {
                let a0 = if a < i { a } else { a + 1 };
                let b0 = if b < i { b } else { b + 1 };
                assert(self.ranges@[a] == o[a0]);
                assert(self.ranges@[b] == o[b0]);
                assert(disjoint(o[a0].offset as int, o[a0].size as int, o[b0].offset as int, o[b0].size as int));
            }
            assert forall|a: int| 0 <= a < self.ranges@.len() implies valid_range(#[trigger] self.ranges@[a], self.size) by {
                let a0 = if a < i { a } else { a + 1 };
                assert(self.ranges@[a] == o[a0]);
                assert(valid_range(o[a0], old(self).size));
            }
        }
        let first: usize = offset / PAGE_SIZE;
        let end: usize = ((offset as u128 + res.size as u128 + (PAGE_SIZE - 1) as u128) / PAGE_SIZE as u128) as usize;
        let first2: usize = if first < end && self.page_used(first) {
            first + 1
        } else {
            first
        };
        let end2: usize = if first2 < end && self.page_used(end - 1) {
            end - 1
        } else {
            end
        };
        if end2 < first2 {
            Ok((first2, first2))
        } else {
            Ok((first2, end2))
        }
    }

    /// Empties the arena and hands back every region it held.
    pub fn take_all(&mut self) -> (r: Vec<Reservation>)
        requires
            old(self).wf(),
        ensures
            final(self).wf(),
            final(self).size == old(self).size,
            final(self).ranges@ == Seq::<Reservation>::empty(),
            r@ == old(self).ranges@,
    {
        let mut taken: Vec<Reservation> = Vec::new();
        std::mem::swap(&mut taken, &mut self.ranges);
        taken
    }
}

} // verus!
