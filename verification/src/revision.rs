//! Revisions: the logical clock of a database.

use vstd::prelude::*;

verus! {

/// One value of the database's logical clock.
///
/// Generation 0 stands for "before any revision" and is never handed out: a
/// database starts in generation 1 and moves up by one on every write.
#[derive(Clone, Copy, Debug, PartialEq, Eq, PartialOrd, Ord, Hash, Structural)]
pub struct Revision {
    generation: u64,
}

impl View for Revision {
    type V = nat;

    closed spec fn view(&self) -> nat {
        self.generation as nat
    }
}

impl Revision {
    /// The revision in which a fresh database starts.
    pub closed spec fn spec_start() -> Revision {
        Revision { generation: 1 }
    }

    /// The revision that follows this one.
    pub closed spec fn spec_next(self) -> Revision {
        Revision { generation: (self.generation + 1) as u64 }
    }

    /// The revision in which a fresh database starts.
    #[verifier::when_used_as_spec(spec_start)]
    pub fn start() -> (r: Revision)
        ensures
            r == Self::spec_start(),
            r@ == 1,
    {
        Revision { generation: 1 }
    }

    /// The revision with generation `g`.
    pub closed spec fn spec_from(g: u64) -> Revision {
        Revision { generation: g }
    }

    /// The revision with generation `g`.
    #[verifier::when_used_as_spec(spec_from)]
    pub fn from(g: u64) -> (r: Revision)
        requires
            g != 0,
        ensures
            r == Self::spec_from(g),
            r@ == g,
    {
        Revision { generation: g }
    }

    /// The revision that follows this one.
    pub fn next(self) -> (r: Revision)
        requires
            self@ < u64::MAX,
        ensures
            r == self.spec_next(),
            r@ == self@ + 1,
    {
        Revision { generation: self.generation + 1 }
    }

    /// The generation of this revision.
    pub fn as_u64(self) -> (g: u64)
        ensures
            g == self@,
    {
        self.generation
    }

    /// The later of two revisions.
    pub fn max(self, other: Revision) -> (r: Revision)
        ensures
            r == spec_later(self, other),
    {
        if self.generation >= other.generation {
            self
        } else {
            other
        }
    }

    /// Two revisions with the same generation are the same revision; the
    /// first revision has generation 1, and each next one has one more.
    pub proof fn lemma_view_injective(a: Revision, b: Revision)
        ensures
            a@ == b@ <==> a == b,
            Self::spec_start()@ == 1,
            Self::spec_from(a@ as u64) == a,
            a@ <= u64::MAX,
            a@ < u64::MAX ==> a.spec_next()@ == a@ + 1,
    {
    }
}

/// The later of two revisions.
pub open spec fn spec_later(a: Revision, b: Revision) -> Revision {
    if a@ >= b@ {
        a
    } else {
        b
    }
}

} // verus!
