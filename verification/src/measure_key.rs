//! The closed set of metric kinds an experiment is measured under.

use vstd::prelude::*;

verus! {

/// One metric kind: wall-clock time, peak resident memory, or the
/// optional user-supplied numeric metric.
#[derive(Copy, Clone, Debug, PartialEq, Eq, Structural)]
pub enum MeasureKey {
    WallTime,
    MaxRss,
    UserDefinedMetric,
}

impl MeasureKey {
    /// The position of this kind in the fixed kind order.
    pub open spec fn spec_index(self) -> int {
        match self {
            MeasureKey::WallTime => 0,
            MeasureKey::MaxRss => 1,
            MeasureKey::UserDefinedMetric => 2,
        }
    }

    pub fn index(&self) -> (i: usize)
        ensures
            i == self.spec_index(),
            i < 3,
    {
        match self {
            MeasureKey::WallTime => 0,
            MeasureKey::MaxRss => 1,
            MeasureKey::UserDefinedMetric => 2,
        }
    }

    /// Inverse of `index`; only the three used positions are meaningful.
    pub fn from_index(index: usize) -> (k: MeasureKey)
        requires
            index < 3,
        ensures
            k.spec_index() == index,
    {
        match index {
            0 => MeasureKey::WallTime,
            1 => MeasureKey::MaxRss,
            _ => MeasureKey::UserDefinedMetric,
        }
    }
}

} // verus!
