//! The counting gate that bounds how many data items are in flight when the
//! unbounded queue is compared with bounded channels.
use vstd::prelude::*;

verus! {

/// Slots of a bounded gate: `inflight` taken out of `cap`.
pub struct Slots {
    inflight: usize,
    cap: usize,
}

impl Slots {
    pub open spec fn wf(&self) -> bool {
        self.inflight_spec() <= self.cap_spec()
    }

    pub closed spec fn inflight_spec(&self) -> nat {
        self.inflight as nat
    }

    pub closed spec fn cap_spec(&self) -> nat {
        self.cap as nat
    }

    /// A gate of `cap` slots, none taken.
    pub fn new(cap: usize) -> (r: Self)
        ensures
            r.wf(),
            r.inflight_spec() == 0,
            r.cap_spec() == cap,
    {
        Slots { inflight: 0, cap }
    }

    /// Slots taken.
    pub fn inflight(&self) -> (r: usize)
        ensures
            r == self.inflight_spec(),
    {
        self.inflight
    }

    /// Takes a slot when one is free; `false` tells the producer to wait.
    pub fn try_acquire(&mut self) -> (r: bool)
        requires
            old(self).wf(),
        ensures
            final(self).wf(),
            final(self).cap_spec() == old(self).cap_spec(),
            r == (old(self).inflight_spec() < old(self).cap_spec()),
            r ==> final(self).inflight_spec() == old(self).inflight_spec() + 1,
            !r ==> final(self).inflight_spec() == old(self).inflight_spec(),
    {
        if self.inflight < self.cap {
            self.inflight = self.inflight + 1;
            true
        } else {
            false
        }
    }

    /// Gives a slot back.
    pub fn release(&mut self)
        requires
            old(self).wf(),
            old(self).inflight_spec() > 0,
        ensures
            final(self).wf(),
            final(self).cap_spec() == old(self).cap_spec(),
            final(self).inflight_spec() == old(self).inflight_spec() - 1,
    {
        self.inflight = self.inflight - 1;
    }
}

} // verus!
