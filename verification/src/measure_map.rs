//! One Sample Store per metric kind, whether or not the kind is active.

use vstd::prelude::*;

use crate::measure_key::MeasureKey;
use crate::store::SampleStore;

verus! {

/// The fixed set of per-metric Sample Stores an experiment carries.
/// Inactive kinds simply stay empty and are never rendered.
pub struct MeasureMap {
    wall_time: SampleStore,
    max_rss: SampleStore,
    user_metric: SampleStore,
}

impl MeasureMap {
    /// The sample sequence recorded under one metric kind.
    pub closed spec fn spec_get(self, key: MeasureKey) -> Seq<u64> {
        match key {
            MeasureKey::WallTime => self.wall_time@,
            MeasureKey::MaxRss => self.max_rss@,
            MeasureKey::UserDefinedMetric => self.user_metric@,
        }
    }

    pub fn new_all_default() -> (m: MeasureMap)
        ensures
            forall|k: MeasureKey| m.spec_get(k) == Seq::<u64>::empty(),
    {
        MeasureMap {
            wall_time: SampleStore::new(),
            max_rss: SampleStore::new(),
            user_metric: SampleStore::new(),
        }
    }

    pub fn get(&self, key: MeasureKey) -> (s: &SampleStore)
        ensures
            s@ == self.spec_get(key),
    {
        match key {
            MeasureKey::WallTime => &self.wall_time,
            MeasureKey::MaxRss => &self.max_rss,
            MeasureKey::UserDefinedMetric => &self.user_metric,
        }
    }

    /// Appends to the store of one kind; the other kinds are untouched.
    pub fn push(&mut self, key: MeasureKey, value: u64)
        ensures
            final(self).spec_get(key) == old(self).spec_get(key).push(value),
            forall|k: MeasureKey| k != key ==> final(self).spec_get(k) == old(self).spec_get(k),
    {
        match key {
            MeasureKey::WallTime => self.wall_time.push(value),
            MeasureKey::MaxRss => self.max_rss.push(value),
            MeasureKey::UserDefinedMetric => self.user_metric.push(value),
        }
    }

    /// The one-shot bulk clear of every kind's store.
    pub fn clear_all(&mut self)
        ensures
            forall|k: MeasureKey| final(self).spec_get(k) == Seq::<u64>::empty(),
    {
        self.wall_time.clear();
        self.max_rss.clear();
        self.user_metric.clear();
    }
}

} // verus!
