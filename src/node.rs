//! Nodes owned by a process, with their counts and the references and deaths registered on them.

use vstd::prelude::*;

verus! {

/// A process that registered for the death of a node, and under which cookie.
#[derive(Clone, Copy, Debug, PartialEq, Eq, Structural)]
pub struct DeathSubscriber {
    pub process: u64,
    pub cookie: u64,
}

/// A handle of some process that refers to a node.
#[derive(Clone, Copy, Debug, PartialEq, Eq, Structural)]
pub struct RefLink {
    pub process: u64,
    pub handle: u32,
}

/// A node owned by this process, identified by its user pointer and cookie.
pub struct Node {
    pub ptr: u64,
    pub cookie: u64,
    pub flags: u32,
    /// Identity of the node across all processes.
    pub global_id: u64,
    /// Strong counts held on the node by all processes.
    pub strong: u64,
    /// Weak counts held on the node by all processes.
    pub weak: u64,
    /// Death registrations made by other processes on this node.
    pub deaths: Vec<DeathSubscriber>,
    /// The handles of other processes that refer to this node.
    pub refs: Vec<RefLink>,
}

/// A count after adding or removing `n`; it stops at zero and at `u64::MAX`.
pub open spec fn count_after(c: u64, inc: bool, n: u64) -> u64 {
    if inc {
        if c + n <= u64::MAX {
            (c + n) as u64
        } else {
            u64::MAX
        }
    } else if c >= n {
        (c - n) as u64
    } else {
        0
    }
}

impl Node {
    pub open spec fn spec_count(&self, strong: bool) -> u64 {
        if strong {
            self.strong
        } else {
            self.weak
        }
    }

    pub fn new(ptr: u64, cookie: u64, flags: u32, global_id: u64) -> (r: Node)
        ensures
            r.ptr == ptr,
            r.cookie == cookie,
            r.flags == flags,
            r.global_id == global_id,
            r.strong == 0,
            r.weak == 0,
            r.deaths@ == Seq::<DeathSubscriber>::empty(),
            r.refs@ == Seq::<RefLink>::empty(),
    {
        Node { ptr, cookie, flags, global_id, strong: 0, weak: 0, deaths: Vec::new(), refs: Vec::new() }
    }

    /// Registers a death notification on this node.
    pub fn add_death(&mut self, sub: DeathSubscriber)
        ensures
            final(self).deaths@ == old(self).deaths@.push(sub),
            final(self).refs@ == old(self).refs@,
            final(self).cookie == old(self).cookie,
            final(self).flags == old(self).flags,
            final(self).ptr == old(self).ptr,
            final(self).global_id == old(self).global_id,
            final(self).strong == old(self).strong,
            final(self).weak == old(self).weak,
    {
        self.deaths.push(sub);
    }

    /// Records that `link` refers to this node.
    pub fn insert_node_info(&mut self, link: RefLink)
        ensures
            final(self).refs@ == old(self).refs@.push(link),
            final(self).cookie == old(self).cookie,
            final(self).flags == old(self).flags,
            final(self).ptr == old(self).ptr,
            final(self).global_id == old(self).global_id,
            final(self).strong == old(self).strong,
            final(self).weak == old(self).weak,
            final(self).deaths@ == old(self).deaths@,
    {
        self.refs.push(link);
    }

    /// Forgets that `link` refers to this node.
    pub fn remove_node_info(&mut self, link: RefLink)
        ensures
            final(self).refs@ == old(self).refs@.filter(|l: RefLink| l != link),
            final(self).cookie == old(self).cookie,
            final(self).flags == old(self).flags,
            final(self).ptr == old(self).ptr,
            final(self).global_id == old(self).global_id,
            final(self).strong == old(self).strong,
            final(self).weak == old(self).weak,
            final(self).deaths@ == old(self).deaths@,
    {
        let mut kept: Vec<RefLink> = Vec::new();
        let mut i: usize = 0;
        while i < self.refs.len()
            invariant
                0 <= i <= self.refs@.len(),
                kept@ == self.refs@.take(i as int).filter(|l: RefLink| l != link),
            decreases self.refs@.len() - i,
        {
            let l = self.refs[i];
            proof {
                reveal_with_fuel(Seq::filter, 1);
                assert(self.refs@.take(i + 1).drop_last() =~= self.refs@.take(i as int));
            }
            if l != link {
                kept.push(l);
            }
            i = i + 1;
        }
        assert(self.refs@.take(self.refs@.len() as int) =~= self.refs@);
        self.refs = kept;
    }

    /// Changes one count by `n`; returns whether the owner must be told,
    /// which is when the count moves between zero and nonzero.
    pub fn update_refcount(&mut self, inc: bool, strong: bool, n: u64) -> (r: bool)
        ensures
            final(self).ptr == old(self).ptr,
            final(self).cookie == old(self).cookie,
            final(self).flags == old(self).flags,
            final(self).global_id == old(self).global_id,
            final(self).deaths@ == old(self).deaths@,
            final(self).refs@ == old(self).refs@,
            final(self).spec_count(strong) == count_after(old(self).spec_count(strong), inc, n),
            final(self).spec_count(!strong) == old(self).spec_count(!strong),
            r == ((old(self).spec_count(strong) == 0) != (final(self).spec_count(strong) == 0)),
    {
        let c = if strong {
            self.strong
        } else {
            self.weak
        };
        let next = if inc {
            if c <= u64::MAX - n {
                c + n
            } else {
                u64::MAX
            }
        } else if c >= n {
            c - n
        } else {
            0
        };
        if strong {
            self.strong = next;
        } else {
            self.weak = next;
        }
        (c == 0) != (next == 0)
    }
    /// Forgets the death registration `sub`.
    pub fn remove_death(&mut self, sub: DeathSubscriber)
        ensures
            final(self).deaths@ == old(self).deaths@.filter(|d: DeathSubscriber| d != sub),
            final(self).refs@ == old(self).refs@,
            final(self).ptr == old(self).ptr,
            final(self).cookie == old(self).cookie,
            final(self).flags == old(self).flags,
            final(self).global_id == old(self).global_id,
            final(self).strong == old(self).strong,
            final(self).weak == old(self).weak,
    {
        let mut kept: Vec<DeathSubscriber> = Vec::new();
        let mut i: usize = 0;
        while i < self.deaths.len()
            invariant
                0 <= i <= self.deaths@.len(),
                kept@ == self.deaths@.take(i as int).filter(|d: DeathSubscriber| d != sub),
            decreases self.deaths@.len() - i,
        {
            let d = self.deaths[i];
            proof {
                reveal_with_fuel(Seq::filter, 1);
                assert(self.deaths@.take(i + 1).drop_last() =~= self.deaths@.take(i as int));
            }
            if d != sub {
                kept.push(d);
            }
            i = i + 1;
        }
        assert(self.deaths@.take(self.deaths@.len() as int) =~= self.deaths@);
        self.deaths = kept;
    }

    /// Forgets every link and every death registration of process `id`.
    pub fn forget_process(&mut self, id: u64)
        ensures
            final(self).refs@ == old(self).refs@.filter(|l: RefLink| l.process != id),
            final(self).deaths@ == old(self).deaths@.filter(|d: DeathSubscriber| d.process != id),
            final(self).ptr == old(self).ptr,
            final(self).cookie == old(self).cookie,
            final(self).flags == old(self).flags,
            final(self).global_id == old(self).global_id,
            final(self).strong == old(self).strong,
            final(self).weak == old(self).weak,
    {
        let mut refs: Vec<RefLink> = Vec::new();
        let mut i: usize = 0;
        while i < self.refs.len()
            invariant
                0 <= i <= self.refs@.len(),
                refs@ == self.refs@.take(i as int).filter(|l: RefLink| l.process != id),
            decreases self.refs@.len() - i,
        {
            let l = self.refs[i];
            proof {
                reveal_with_fuel(Seq::filter, 1);
                assert(self.refs@.take(i + 1).drop_last() =~= self.refs@.take(i as int));
            }
            if l.process != id {
                refs.push(l);
            }
            i = i + 1;
        }
        assert(self.refs@.take(self.refs@.len() as int) =~= self.refs@);
        let mut deaths: Vec<DeathSubscriber> = Vec::new();
        let mut k: usize = 0;
        while k < self.deaths.len()
            invariant
                0 <= k <= self.deaths@.len(),
                deaths@ == self.deaths@.take(k as int).filter(|d: DeathSubscriber| d.process != id),
            decreases self.deaths@.len() - k,
        {
            let d = self.deaths[k];
            proof {
                reveal_with_fuel(Seq::filter, 1);
                assert(self.deaths@.take(k + 1).drop_last() =~= self.deaths@.take(k as int));
            }
            if d.process != id {
                deaths.push(d);
            }
            k = k + 1;
        }
        assert(self.deaths@.take(self.deaths@.len() as int) =~= self.deaths@);
        self.refs = refs;
        self.deaths = deaths;
    }
}

} // verus!
