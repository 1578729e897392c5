use vstd::prelude::*;

verus! {

/// A counting semaphore: at most `capacity` permits are out at any time.
pub struct ConcurrencyGate {
    capacity: usize,
    outstanding: usize,
}

impl ConcurrencyGate {
    /// How many permits there are in all.
    pub closed spec fn capacity_spec(&self) -> nat {
        self.capacity as nat
    }

    /// The number of permits that are out.
    pub closed spec fn outstanding_spec(&self) -> nat {
        self.outstanding as nat
    }

    /// A gate with at least one permit that has handed out no more than it holds.
    pub open spec fn wf(&self) -> bool {
        0 < self.capacity_spec() && self.outstanding_spec() <= self.capacity_spec()
    }

    /// A gate of `capacity` permits, none of them out.
    pub fn new(capacity: usize) -> (r: Self)
        requires
            capacity > 0,
        ensures
            r.wf(),
            r.capacity_spec() == capacity,
            r.outstanding_spec() == 0,
    {
        ConcurrencyGate { capacity, outstanding: 0 }
    }

    pub fn capacity(&self) -> (r: usize)
        ensures
            r == self.capacity_spec(),
    {
        self.capacity
    }

    pub fn outstanding(&self) -> (r: usize)
        ensures
            r == self.outstanding_spec(),
    {
        self.outstanding
    }

    /// Hands out a permit where one is free, and tells whether it did.
    pub fn try_acquire(&mut self) -> (r: bool)
        requires
            old(self).wf(),
        ensures
            final(self).wf(),
            r == (old(self).outstanding_spec() < old(self).capacity_spec()),
            final(self).capacity_spec() == old(self).capacity_spec(),
            final(self).outstanding_spec() == old(self).outstanding_spec() + if r {
                1nat
            } else {
                0nat
            },
    {
        if self.outstanding < self.capacity {
            self.outstanding = self.outstanding + 1;
            true
        } else {
            false
        }
    }

    /// Takes back one permit.
    pub fn release(&mut self)
        requires
            old(self).wf(),
            old(self).outstanding_spec() > 0,
        ensures
            final(self).wf(),
            final(self).capacity_spec() == old(self).capacity_spec(),
            final(self).outstanding_spec() == old(self).outstanding_spec() - 1,
    {
        self.outstanding = self.outstanding - 1;
    }
}

} // verus!
