//! The identifiers that interning hands out.

use vstd::prelude::*;

verus! {

/// The "raw-id" is used for interned keys: a small number that stands for a
/// value that has been interned. A typical use is a "newtype" around it, which
/// implements `InternKey`.
#[derive(Copy, Clone, Debug, PartialEq, Eq, PartialOrd, Ord, Hash, Structural)]
pub struct InternId {
    value: u32,
}

impl View for InternId {
    type V = nat;

    closed spec fn view(&self) -> nat {
        self.value as nat
    }
}

impl InternId {
    /// The maximum allowed `InternId`: ids are numbers below this one.
    pub const MAX: u32 = 0xFFFF_FF00;

    /// The id with the number `v`.
    pub closed spec fn spec_from(v: nat) -> InternId {
        InternId { value: v as u32 }
    }

    /// Ids are their numbers.
    pub proof fn lemma_view(a: InternId, b: InternId, v: nat)
        ensures
            a@ == b@ <==> a == b,
            a@ <= u32::MAX,
            v <= u32::MAX ==> Self::spec_from(v)@ == v,
            Self::spec_from(a@) == a,
    {
    }

    /// Creates a new InternId from the number `v`, which must be below `MAX`.
    pub fn from_u32(v: u32) -> (id: InternId)
        requires
            v < InternId::MAX,
        ensures
            id@ == v,
            id == Self::spec_from(v as nat),
    {
        InternId { value: v }
    }

    /// Creates a new InternId from the number `v`, which must be below `MAX`.
    pub fn from_usize(v: usize) -> (id: InternId)
        requires
            v < InternId::MAX,
        ensures
            id@ == v,
            id == Self::spec_from(v as nat),
    {
        InternId { value: v as u32 }
    }

    /// Convert this raw-id into a u32 value.
    pub fn as_u32(self) -> (v: u32)
        ensures
            v == self@,
    {
        self.value
    }

    /// Convert this raw-id into a usize value.
    pub fn as_usize(self) -> (v: usize)
        ensures
            v == self@,
    {
        self.value as usize
    }
}

} // verus!
