//! What a sweep may discard.

use vstd::prelude::*;

verus! {

/// Which entries a sweep may discard.
#[derive(Debug, Clone, Copy, PartialEq, Eq, PartialOrd, Ord, Structural)]
pub enum DiscardIf {
    /// None.
    Never,
    /// Those that were not verified in the current revision.
    Outdated,
    /// All.
    Always,
}

/// What a sweep discards of an entry.
#[derive(Debug, Clone, Copy, PartialEq, Eq, PartialOrd, Ord, Structural)]
pub enum DiscardWhat {
    /// Nothing.
    Nothing,
    /// The value; what the value was computed from stays on record.
    Values,
    /// The value and the record.
    Everything,
}

impl DiscardIf {
    /// The place of the choice, from the one that discards least.
    pub open spec fn rank(self) -> int {
        match self {
            DiscardIf::Never => 0,
            DiscardIf::Outdated => 1,
            DiscardIf::Always => 2,
        }
    }

    /// The one of the two choices that discards more.
    pub open spec fn spec_max(self, other: DiscardIf) -> DiscardIf {
        if other.rank() > self.rank() {
            other
        } else {
            self
        }
    }

    /// The one of the two choices that discards more.
    pub fn max(self, other: DiscardIf) -> (m: DiscardIf)
        ensures
            m == self.spec_max(other),
    {
        match (self, other) {
            (DiscardIf::Always, _) => self,
            (_, DiscardIf::Always) => other,
            (DiscardIf::Outdated, _) => self,
            (_, DiscardIf::Outdated) => other,
            _ => self,
        }
    }
}

impl DiscardWhat {
    /// The place of the choice, from the one that discards least.
    pub open spec fn rank(self) -> int {
        match self {
            DiscardWhat::Nothing => 0,
            DiscardWhat::Values => 1,
            DiscardWhat::Everything => 2,
        }
    }

    /// The one of the two choices that discards more.
    pub open spec fn spec_max(self, other: DiscardWhat) -> DiscardWhat {
        if other.rank() > self.rank() {
            other
        } else {
            self
        }
    }

    /// The one of the two choices that discards more.
    pub fn max(self, other: DiscardWhat) -> (m: DiscardWhat)
        ensures
            m == self.spec_max(other),
    {
        match (self, other) {
            (DiscardWhat::Everything, _) => self,
            (_, DiscardWhat::Everything) => other,
            (DiscardWhat::Values, _) => self,
            (_, DiscardWhat::Values) => other,
            _ => self,
        }
    }
}

impl Default for DiscardIf {
    fn default() -> (d: DiscardIf)
        ensures
            d == DiscardIf::Never,
    {
        DiscardIf::Never
    }
}

impl Default for DiscardWhat {
    fn default() -> (d: DiscardWhat)
        ensures
            d == DiscardWhat::Nothing,
    {
        DiscardWhat::Nothing
    }
}

/// The sweep strategy controls what data we will keep/discard when we
/// do a GC-sweep. The default (`SweepStrategy::default`) is a no-op,
/// use `SweepStrategy::discard_outdated` constructor or `discard_*`
/// and `sweep_*` builder functions to construct useful strategies.
#[derive(Debug, Copy, Clone, PartialEq, Eq, Structural)]
pub struct SweepStrategy {
    /// Which entries may be discarded.
    pub discard_if: DiscardIf,
    /// What is discarded of them.
    pub discard_what: DiscardWhat,
    /// Whether the tables give back the room that they no longer need.
    pub shrink_to_fit: bool,
}

impl Default for SweepStrategy {
    /// The strategy that discards nothing.
    fn default() -> (s: SweepStrategy)
        ensures
            s == (SweepStrategy {
                discard_if: DiscardIf::Never,
                discard_what: DiscardWhat::Nothing,
                shrink_to_fit: false,
            }),
    {
        SweepStrategy {
            discard_if: DiscardIf::Never,
            discard_what: DiscardWhat::Nothing,
            shrink_to_fit: false,
        }
    }
}

impl SweepStrategy {
    /// Convenience function that discards all data not used thus far in the
    /// current revision.
    ///
    /// Equivalent to `SweepStrategy::default().discard_everything().sweep_outdated()`.
    pub fn discard_outdated() -> (s: SweepStrategy)
        ensures
            s == (SweepStrategy {
                discard_if: DiscardIf::Outdated,
                discard_what: DiscardWhat::Everything,
                shrink_to_fit: false,
            }),
    {
        let base = SweepStrategy {
            discard_if: DiscardIf::Never,
            discard_what: DiscardWhat::Nothing,
            shrink_to_fit: false,
        };
        base.discard_everything().sweep_outdated()
    }

    /// Collects query values.
    ///
    /// Query dependencies are left in the database, which allows to quickly
    /// determine if the query is up to date, and avoid recomputing
    /// dependencies.
    pub fn discard_values(self) -> (s: SweepStrategy)
        ensures
            s == (SweepStrategy {
                discard_what: self.discard_what.spec_max(DiscardWhat::Values),
                ..self
            }),
    {
        SweepStrategy { discard_what: self.discard_what.max(DiscardWhat::Values), ..self }
    }

    /// Collects both values and information about dependencies.
    ///
    /// Dependant queries will be recomputed even if all inputs to this query
    /// stay the same.
    pub fn discard_everything(self) -> (s: SweepStrategy)
        ensures
            s == (SweepStrategy { discard_what: DiscardWhat::Everything, ..self }),
    {
        SweepStrategy { discard_what: self.discard_what.max(DiscardWhat::Everything), ..self }
    }

    /// Process all keys, not verified at the current revision.
    pub fn sweep_outdated(self) -> (s: SweepStrategy)
        ensures
            s == (SweepStrategy {
                discard_if: self.discard_if.spec_max(DiscardIf::Outdated),
                ..self
            }),
    {
        SweepStrategy { discard_if: self.discard_if.max(DiscardIf::Outdated), ..self }
    }

    /// Process all keys.
    pub fn sweep_all_revisions(self) -> (s: SweepStrategy)
        ensures
            s == (SweepStrategy { discard_if: DiscardIf::Always, ..self }),
    {
        SweepStrategy { discard_if: self.discard_if.max(DiscardIf::Always), ..self }
    }
}

} // verus!
