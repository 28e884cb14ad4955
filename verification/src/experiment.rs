//! One named workload: a warmup command, a measured command, and its
//! per-metric Sample Stores.

use vstd::prelude::*;

use crate::experiment_name::ExperimentName;
use crate::measure_key::MeasureKey;
use crate::measure_map::MeasureMap;

verus! {

/// One experiment variant. `warmup` may be empty; both commands are
/// immutable after creation; `measures` is mutated only by appending,
/// plus the one-time clear that discards an ignored first round.
pub struct Experiment {
    pub name: ExperimentName,
    pub warmup: String,
    pub run: String,
    pub measures: MeasureMap,
}

impl Experiment {
    pub fn new(name: ExperimentName, warmup: String, run: String) -> (e: Experiment)
        ensures
            e.name == name,
            e.warmup == warmup,
            e.run == run,
            forall|k: MeasureKey| e.measures.spec_get(k) == Seq::<u64>::empty(),
    {
        Experiment { name, warmup, run, measures: MeasureMap::new_all_default() }
    }

    /// The number of completed runs of this experiment: wall-clock time is
    /// measured on every successful run, so its store length is the count.
    pub open spec fn spec_runs(self) -> nat {
        self.measures.spec_get(MeasureKey::WallTime).len()
    }

    pub fn runs(&self) -> (n: usize)
        ensures
            n == self.spec_runs(),
    {
        self.measures.get(MeasureKey::WallTime).len()
    }

    /// Discards every recorded sample; commands and name are kept.
    pub fn clear_measures(&mut self)
        ensures
            final(self).name == old(self).name,
            final(self).warmup == old(self).warmup,
            final(self).run == old(self).run,
            forall|k: MeasureKey| final(self).measures.spec_get(k) == Seq::<u64>::empty(),
    {
        self.measures.clear_all();
    }
}

} // verus!
