//! The counts one process holds on one node, and death registrations.

use vstd::prelude::*;

verus! {

/// Addition that stops at `u64::MAX`.
pub open spec fn sat_add(a: u64, b: u64) -> u64 {
    if a + b <= u64::MAX {
        (a + b) as u64
    } else {
        u64::MAX
    }
}

pub fn saturating_add(a: u64, b: u64) -> (r: u64)
    ensures
        r == sat_add(a, b),
{
    if a <= u64::MAX - b {
        a + b
    } else {
        u64::MAX
    }
}

/// The strong and weak counts that one process holds on one node.
#[derive(Clone, Copy, Debug, PartialEq, Eq, Structural)]
pub struct NodeRef {
    /// Global id of the target node.
    pub node: u64,
    pub strong: u64,
    pub weak: u64,
}

impl NodeRef {
    /// A reference holding one strong or one weak count on `node`.
    pub open spec fn spec_single(node: u64, strong: bool) -> NodeRef {
        NodeRef { node, strong: if strong { 1 } else { 0 }, weak: if strong { 0 } else { 1 } }
    }

    pub open spec fn is_zero(self) -> bool {
        self.strong == 0 && self.weak == 0
    }

    /// The counts after taking over the counts of `other`.
    pub open spec fn absorbed(self, other: NodeRef) -> NodeRef {
        NodeRef {
            node: self.node,
            strong: sat_add(self.strong, other.strong),
            weak: sat_add(self.weak, other.weak),
        }
    }

    /// The counts after one increment or decrement of one kind.
    ///
    /// A strong change is ignored while no strong count is held, a decrement
    /// of a zero count is ignored, and an increment stops at `u64::MAX`.
    pub open spec fn updated(self, inc: bool, strong: bool) -> NodeRef {
        if strong && self.strong == 0 {
            self
        } else if strong {
            if inc {
                NodeRef { strong: sat_add(self.strong, 1), ..self }
            } else {
                NodeRef { strong: (self.strong - 1) as u64, ..self }
            }
        } else {
            if inc {
                NodeRef { weak: sat_add(self.weak, 1), ..self }
            } else if self.weak == 0 {
                self
            } else {
                NodeRef { weak: (self.weak - 1) as u64, ..self }
            }
        }
    }

    /// Whether one update leaves the reference with no count at all.
    pub open spec fn update_drops_last(self, inc: bool, strong: bool) -> bool {
        !inc && !(strong && self.strong == 0) && !self.is_zero() && self.updated(inc, strong).is_zero()
    }

    pub fn new(node: u64, strong: bool) -> (r: NodeRef)
        ensures
            r == NodeRef::spec_single(node, strong),
    {
        NodeRef { node, strong: if strong { 1 } else { 0 }, weak: if strong { 0 } else { 1 } }
    }

    /// A new reference to the same node, holding a single count of the given kind.
    pub fn clone_ref(&self, strong: bool) -> (r: NodeRef)
        ensures
            r == NodeRef::spec_single(self.node, strong),
    {
        NodeRef::new(self.node, strong)
    }

    /// Takes over the counts of another reference to the same node.
    pub fn absorb(&mut self, other: NodeRef)
        ensures
            *final(self) == old(self).absorbed(other),
    {
        self.strong = saturating_add(self.strong, other.strong);
        self.weak = saturating_add(self.weak, other.weak);
    }

    /// Applies one increment or decrement; returns true when the reference
    /// has just dropped its last count.
    pub fn update(&mut self, inc: bool, strong: bool) -> (r: bool)
        ensures
            *final(self) == old(self).updated(inc, strong),
            r == old(self).update_drops_last(inc, strong),
    {
        if strong && self.strong == 0 {
            return false;
        }
        if strong {
            if inc {
                self.strong = saturating_add(self.strong, 1);
                false
            } else {
                self.strong = self.strong - 1;
                self.strong == 0 && self.weak == 0
            }
        } else {
            if inc {
                self.weak = saturating_add(self.weak, 1);
                false
            } else if self.weak == 0 {
                false
            } else {
                self.weak = self.weak - 1;
                self.weak == 0 && self.strong == 0
            }
        }
    }
}

/// A death notification registered by this process on a node of another process.
#[derive(Clone, Copy, Debug, PartialEq, Eq, Structural)]
pub struct NodeDeath {
    pub cookie: u64,
    /// The owner of the node has died and the notification was sent.
    pub dead: bool,
    /// The registration was cleared by user space or by teardown.
    pub cleared: bool,
    /// User space confirmed receipt of the death notification.
    pub notification_done: bool,
}

impl NodeDeath {
    pub open spec fn spec_new(cookie: u64, dead: bool) -> NodeDeath {
        NodeDeath { cookie, dead, cleared: false, notification_done: false }
    }

    pub fn new(cookie: u64, dead: bool) -> (r: NodeDeath)
        ensures
            r == NodeDeath::spec_new(cookie, dead),
    {
        NodeDeath { cookie, dead, cleared: false, notification_done: false }
    }

    /// Whether clearing this registration owes the user a completion item.
    pub open spec fn clear_needs_queueing(self) -> bool {
        !self.cleared && (!self.dead || self.notification_done)
    }

    /// Marks the registration cleared; returns whether a completion item must be queued.
    pub fn set_cleared(&mut self) -> (r: bool)
        ensures
            final(self).cleared,
            final(self).cookie == old(self).cookie,
            final(self).dead == old(self).dead,
            final(self).notification_done == old(self).notification_done,
            r == old(self).clear_needs_queueing(),
    {
        if self.cleared {
            return false;
        }
        self.cleared = true;
        !self.dead || self.notification_done
    }
}

} // verus!
