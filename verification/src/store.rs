//! The Sample Store: an ordered, append-only sequence of raw `u64`
//! measurements for one (experiment, metric) pair.

use vstd::prelude::*;

verus! {

/// An append-only sequence of raw samples in the metric's natural unit
/// (nanoseconds, bytes, or an arbitrary user unit). The only mutations
/// are `push` and the one-shot `clear` used to discard a warmup round.
pub struct SampleStore {
    values: Vec<u64>,
}

impl View for SampleStore {
    type V = Seq<u64>;

    closed spec fn view(&self) -> Seq<u64> {
        self.values@
    }
}

impl SampleStore {
    pub fn new() -> (s: SampleStore)
        ensures
            s@ == Seq::<u64>::empty(),
    {
        SampleStore { values: Vec::new() }
    }

    /// Appending never removes or reorders earlier samples.
    pub fn push(&mut self, value: u64)
        ensures
            final(self)@ == old(self)@.push(value),
    {
        self.values.push(value);
    }

    /// Bulk clear, used exactly once per run to discard the first round.
    pub fn clear(&mut self)
        ensures
            final(self)@ == Seq::<u64>::empty(),
    {
        self.values.clear();
    }

    pub fn len(&self) -> (n: usize)
        ensures
            n == self@.len(),
    {
        self.values.len()
    }

    pub fn get(&self, i: usize) -> (v: u64)
        requires
            i < self@.len(),
        ensures
            v == self@[i as int],
    {
        self.values[i]
    }
}

} // verus!
