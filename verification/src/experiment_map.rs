//! The Experiment Collection: an insertion-ordered mapping from experiment
//! name to a value, with the fixed relative order A, B, C, D, E regardless
//! of the order in which optional variants were inserted.

use vstd::prelude::*;

use crate::experiment::Experiment;
use crate::experiment_name::ExperimentName;

verus! {

/// A mapping from experiment name to `T` with at most one entry per name,
/// iterated in the fixed name order.
pub struct ExperimentMap<T> {
    slots: Vec<Option<T>>,
}

impl<T> ExperimentMap<T> {
    /// Well-formed: one slot per possible name.
    pub closed spec fn wf(self) -> bool {
        self.slots@.len() == 5
    }

    /// The entry at one position of the fixed name order.
    pub closed spec fn spec_at(self, i: int) -> Option<T> {
        self.slots@[i]
    }

    /// The entry of one name.
    pub open spec fn spec_get(self, n: ExperimentName) -> Option<T> {
        self.spec_at(n.spec_index())
    }

    /// Whether a name has an entry.
    pub open spec fn present(self, n: ExperimentName) -> bool {
        self.spec_get(n) is Some
    }

    pub fn new() -> (m: ExperimentMap<T>)
        ensures
            m.wf(),
            forall|i: int| 0 <= i < 5 ==> m.spec_at(i) is None,
    {
        let mut slots: Vec<Option<T>> = Vec::new();
        slots.push(None);
        slots.push(None);
        slots.push(None);
        slots.push(None);
        slots.push(None);
        ExperimentMap { slots }
    }

    pub fn insert(&mut self, n: ExperimentName, value: T)
        requires
            old(self).wf(),
        ensures
            final(self).wf(),
            final(self).spec_at(n.spec_index()) == Some(value),
            forall|i: int|
                0 <= i < 5 && i != n.spec_index() ==> final(self).spec_at(i) == old(self).spec_at(
                    i,
                ),
    {
        let i = n.index();
        self.slots.remove(i);
        self.slots.insert(i, Some(value));
    }

    pub fn get(&self, n: ExperimentName) -> (r: Option<&T>)
        requires
            self.wf(),
        ensures
            match r {
                Some(v) => self.spec_get(n) == Some(*v),
                None => self.spec_get(n) is None,
            },
    {
        self.slots[n.index()].as_ref()
    }

    pub fn get_at(&self, i: usize) -> (r: Option<&T>)
        requires
            self.wf(),
            i < 5,
        ensures
            match r {
                Some(v) => self.spec_at(i as int) == Some(*v),
                None => self.spec_at(i as int) is None,
            },
    {
        self.slots[i].as_ref()
    }

    /// Removes and returns the entry at one position, leaving the slot empty.
    pub fn take_at(&mut self, i: usize) -> (r: Option<T>)
        requires
            old(self).wf(),
            i < 5,
        ensures
            final(self).wf(),
            r == old(self).spec_at(i as int),
            final(self).spec_at(i as int) is None,
            forall|j: int|
                0 <= j < 5 && j != i ==> final(self).spec_at(j) == old(self).spec_at(j),
    {
        let r = self.slots.remove(i);
        self.slots.insert(i, None);
        r
    }

    /// Puts an entry back at one position.
    pub fn put_at(&mut self, i: usize, value: T)
        requires
            old(self).wf(),
            i < 5,
        ensures
            final(self).wf(),
            final(self).spec_at(i as int) == Some(value),
            forall|j: int|
                0 <= j < 5 && j != i ==> final(self).spec_at(j) == old(self).spec_at(j),
    {
        self.slots.remove(i);
        self.slots.insert(i, Some(value));
    }

    /// The names with an entry, in the first `i` positions of the name order.
    pub open spec fn spec_keys_upto(self, i: int) -> Seq<ExperimentName>
        decreases i,
    {
        if i <= 0 {
            Seq::empty()
        } else {
            self.spec_keys_upto(i - 1) + if self.spec_at(i - 1) is Some {
                seq![name_of_index(i - 1)]
            } else {
                Seq::empty()
            }
        }
    }

    /// The names with an entry, in the fixed name order.
    pub open spec fn spec_keys(self) -> Seq<ExperimentName> {
        self.spec_keys_upto(5)
    }

    pub fn keys(&self) -> (r: Vec<ExperimentName>)
        requires
            self.wf(),
        ensures
            r@ == self.spec_keys(),
    {
        let mut r: Vec<ExperimentName> = Vec::new();
        let mut i: usize = 0;
        while i < 5
            invariant
                self.wf(),
                i <= 5,
                r@ == self.spec_keys_upto(i as int),
            decreases 5 - i,
        {
            let n = ExperimentName::from_index(i);
            if self.get_at(i).is_some() {
                proof {
                    assert(n.spec_index() == i as int);
                    assert(name_of_index(i as int) == n) by {
                        lemma_name_of_index(i as int);
                        lemma_name_index_injective(name_of_index(i as int), n);
                    }
                }
                r.push(n);
            }
            assert(r@ =~= self.spec_keys_upto(i as int + 1));
            i = i + 1;
        }
        r
    }
}

/// The name standing at one position of the fixed order.
pub open spec fn name_of_index(i: int) -> ExperimentName {
    if i == 0 {
        ExperimentName::A
    } else if i == 1 {
        ExperimentName::B
    } else if i == 2 {
        ExperimentName::C
    } else if i == 3 {
        ExperimentName::D
    } else {
        ExperimentName::E
    }
}

pub proof fn lemma_name_of_index(i: int)
    requires
        0 <= i < 5,
    ensures
        name_of_index(i).spec_index() == i,
{
}

pub proof fn lemma_name_index_injective(a: ExperimentName, b: ExperimentName)
    requires
        a.spec_index() == b.spec_index(),
    ensures
        a == b,
{
}

impl ExperimentMap<Experiment> {
    /// Discards every experiment's samples, keeping names and commands:
    /// the one-shot transition that ignores the first round.
    pub fn clear_all_measures(&mut self)
        requires
            old(self).wf(),
        ensures
            final(self).wf(),
            forall|i: int|
                0 <= i < 5 ==> (final(self).spec_at(i) is Some <==> old(self).spec_at(i) is Some),
            forall|i: int|
                0 <= i < 5 && old(self).spec_at(i) is Some ==> {
                    let e = final(self).spec_at(i)->Some_0;
                    let o = old(self).spec_at(i)->Some_0;
                    &&& e.name == o.name
                    &&& e.warmup == o.warmup
                    &&& e.run == o.run
                    &&& e.spec_runs() == 0
                    &&& forall|k: crate::measure_key::MeasureKey|
                        e.measures.spec_get(k) == Seq::<u64>::empty()
                },
    {
        let mut i: usize = 0;
        while i < 5
            invariant
                self.wf(),
                i <= 5,
                forall|j: int|
                    0 <= j < 5 ==> (self.spec_at(j) is Some <==> old(self).spec_at(
                        j,
                    ) is Some),
                forall|j: int|
                    i <= j < 5 ==> self.spec_at(j) == old(self).spec_at(j),
                forall|j: int|
                    0 <= j < i && old(self).spec_at(j) is Some ==> {
                        let e = self.spec_at(j)->Some_0;
                        let o = old(self).spec_at(j)->Some_0;
                        &&& e.name == o.name
                        &&& e.warmup == o.warmup
                        &&& e.run == o.run
                        &&& forall|k: crate::measure_key::MeasureKey|
                            e.measures.spec_get(k) == Seq::<u64>::empty()
                    },
            decreases 5 - i,
        {
            let entry = self.take_at(i);
            match entry {
                Some(mut e) => {
                    e.clear_measures();
                    self.put_at(i, e);
                },
                None => {
                    // the slot stays empty; take_at already left it None
                },
            }
            i = i + 1;
        }
    }
}

} // verus!
