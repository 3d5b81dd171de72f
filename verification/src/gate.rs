//! The admission gate that bounds how many probes run at once.
//!
//! Each unit of work acquires a slot before starting its probe and
//! releases it only once teardown finished, whatever the outcome, so no
//! more probes than the configured ceiling ever run at once.

use vstd::prelude::*;

verus! {

/// A counting gate with a fixed capacity.
#[derive(Clone, Copy, Debug)]
pub struct AdmissionGate {
    pub capacity: usize,
    pub in_use: usize,
}

impl AdmissionGate {
    /// No more slots are ever held than the capacity admits.
    pub open spec fn wf(&self) -> bool {
        self.in_use <= self.capacity
    }

    /// A fresh gate of the given capacity with every slot free.
    pub fn new(capacity: usize) -> (gate: AdmissionGate)
        ensures
            gate.wf(),
            gate.capacity == capacity,
            gate.in_use == 0,
    {
        AdmissionGate { capacity, in_use: 0 }
    }

    /// Takes a slot if one is free.  Succeeds exactly when a slot was
    /// free, and then holds one more slot; a full gate is left unchanged.
    pub fn try_acquire(&mut self) -> (granted: bool)
        requires
            old(self).wf(),
        ensures
            final(self).wf(),
            final(self).capacity == old(self).capacity,
            granted == (old(self).in_use < old(self).capacity),
            granted ==> final(self).in_use == old(self).in_use + 1,
            !granted ==> final(self).in_use == old(self).in_use,
    {
        if self.in_use < self.capacity {
            self.in_use = self.in_use + 1;
            true
        } else {
            false
        }
    }

    /// Returns a held slot.
    pub fn release(&mut self)
        requires
            old(self).wf(),
            old(self).in_use > 0,
        ensures
            final(self).wf(),
            final(self).capacity == old(self).capacity,
            final(self).in_use == old(self).in_use - 1,
    {
        self.in_use = self.in_use - 1;
    }
}

/// Law: however many targets are queued, a well-formed gate never has
/// more probes holding a slot than its capacity; `try_acquire` and
/// `release` preserve well-formedness, so the bound is maintained at every
/// instant of a run.
pub proof fn lemma_gate_bound(gate: AdmissionGate)
    requires
        gate.wf(),
    ensures
        gate.in_use <= gate.capacity,
{
}

} // verus!
