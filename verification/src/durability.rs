//! Durability: how often a value is expected to change.

use vstd::prelude::*;

verus! {

/// A coarse promise about how often a value changes. A query takes the least
/// durability among the inputs it read; a memo can be reused without looking at
/// its inputs while no input of its durability or higher has changed.
#[derive(Clone, Copy, Debug, PartialEq, Eq, PartialOrd, Ord, Hash, Structural)]
pub enum Durability {
    /// Values that change often; the default for inputs.
    Low,
    /// Values that change now and then.
    Medium,
    /// Values that are almost never changed.
    High,
}

impl Durability {
    /// The lowest level.
    pub const LOW: Durability = Durability::Low;

    /// The middle level.
    pub const MEDIUM: Durability = Durability::Medium;

    /// The highest level that an input can have.
    pub const HIGH: Durability = Durability::High;

    /// The level that a query starts from before it has read anything.
    pub const MAX: Durability = Durability::High;

    /// The number of levels.
    pub const LEN: usize = 3;

    /// The position of this level, counted from `LOW`.
    pub open spec fn spec_index(self) -> int {
        match self {
            Durability::Low => 0,
            Durability::Medium => 1,
            Durability::High => 2,
        }
    }

    /// The position of this level, counted from `LOW`.
    pub fn index(self) -> (i: usize)
        ensures
            i == self.spec_index(),
            i < 3,
    {
        match self {
            Durability::Low => 0,
            Durability::Medium => 1,
            Durability::High => 2,
        }
    }

    /// The lower of two levels.
    pub open spec fn spec_min(self, other: Durability) -> Durability {
        if self.spec_index() <= other.spec_index() {
            self
        } else {
            other
        }
    }

    /// The lower of two levels.
    pub fn min(self, other: Durability) -> (d: Durability)
        ensures
            d == self.spec_min(other),
    {
        if self.index() <= other.index() {
            self
        } else {
            other
        }
    }

    /// Levels are told apart by their position.
    pub proof fn lemma_index_injective(a: Durability, b: Durability)
        ensures
            a.spec_index() == b.spec_index() <==> a == b,
    {
    }
}

} // verus!
