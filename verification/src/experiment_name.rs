//! Names of the experiments under comparison: a closed set of five,
//! totally ordered by declaration order.

use vstd::prelude::*;

verus! {

/// The name of one experiment variant. The order of the variants is the
/// display and execution order.
#[derive(Copy, Clone, Debug, PartialEq, Eq, Structural)]
pub enum ExperimentName {
    A,
    B,
    C,
    D,
    E,
}

impl ExperimentName {
    /// Position of this name in the fixed declaration order.
    pub open spec fn spec_index(self) -> int {
        match self {
            ExperimentName::A => 0,
            ExperimentName::B => 1,
            ExperimentName::C => 2,
            ExperimentName::D => 3,
            ExperimentName::E => 4,
        }
    }

    pub fn index(&self) -> (i: usize)
        ensures
            i == self.spec_index(),
            i < 5,
    {
        match self {
            ExperimentName::A => 0,
            ExperimentName::B => 1,
            ExperimentName::C => 2,
            ExperimentName::D => 3,
            ExperimentName::E => 4,
        }
    }

    pub fn from_index(index: usize) -> (n: ExperimentName)
        requires
            index < 5,
        ensures
            n.spec_index() == index,
    {
        match index {
            0 => ExperimentName::A,
            1 => ExperimentName::B,
            2 => ExperimentName::C,
            3 => ExperimentName::D,
            _ => ExperimentName::E,
        }
    }

    /// The one-letter display label of this name.
    pub open spec fn spec_label(self) -> Seq<char> {
        match self {
            ExperimentName::A => "A"@,
            ExperimentName::B => "B"@,
            ExperimentName::C => "C"@,
            ExperimentName::D => "D"@,
            ExperimentName::E => "E"@,
        }
    }

    pub fn label(&self) -> (s: &'static str)
        ensures
            s@ == self.spec_label(),
    {
        match self {
            ExperimentName::A => "A",
            ExperimentName::B => "B",
            ExperimentName::C => "C",
            ExperimentName::D => "D",
            ExperimentName::E => "E",
        }
    }
}

} // verus!
