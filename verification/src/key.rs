//! The identity of a query instance.

use vstd::prelude::*;

verus! {

/// Names one query instance in the database: the group of the query, the query
/// within the group, and the key within the query. Nothing else identifies a
/// query in the dependency graph or in a reported cycle.
#[derive(Copy, Clone, PartialEq, Eq, PartialOrd, Ord, Hash, Debug, Structural)]
pub struct DatabaseKeyIndex {
    group_index: u16,
    query_index: u16,
    key_index: u32,
}

impl DatabaseKeyIndex {
    /// The three parts of the name.
    pub closed spec fn parts(self) -> (u16, u16, u32) {
        (self.group_index, self.query_index, self.key_index)
    }

    /// The name as one number: the group in the top 16 bits, then the query,
    /// then the key in the low 32 bits.
    pub open spec fn spec_code(self) -> u64 {
        (self.parts().0 * 0x1_0000_0000_0000 + self.parts().1 * 0x1_0000_0000
            + self.parts().2) as u64
    }

    /// The name whose code is `c`.
    pub closed spec fn spec_from_code(c: u64) -> DatabaseKeyIndex {
        DatabaseKeyIndex {
            group_index: (c / 0x1_0000_0000_0000) as u16,
            query_index: ((c % 0x1_0000_0000_0000) / 0x1_0000_0000) as u16,
            key_index: ((c % 0x1_0000_0000_0000) % 0x1_0000_0000) as u32,
        }
    }

    /// The name made of the three parts.
    pub fn new(group_index: u16, query_index: u16, key_index: u32) -> (k: DatabaseKeyIndex)
        ensures
            k.parts() == (group_index, query_index, key_index),
    {
        DatabaseKeyIndex { group_index, query_index, key_index }
    }

    /// Returns the index of the query group containing this key.
    pub fn group_index(self) -> (g: u16)
        ensures
            g == self.parts().0,
    {
        self.group_index
    }

    /// Returns the index of the query within its query group.
    pub fn query_index(self) -> (q: u16)
        ensures
            q == self.parts().1,
    {
        self.query_index
    }

    /// Returns the index of this particular query key within the query.
    pub fn key_index(self) -> (k: u32)
        ensures
            k == self.parts().2,
    {
        self.key_index
    }

    /// The name as one number, for use as a key of a hashed collection.
    pub fn code(self) -> (c: u64)
        ensures
            c == self.spec_code(),
    {
        let g: u64 = self.group_index as u64;
        let q: u64 = self.query_index as u64;
        let k: u64 = self.key_index as u64;
        g * 0x1_0000_0000_0000 + q * 0x1_0000_0000 + k
    }

    /// The name that `code` turned into the number `c`.
    pub fn from_code(c: u64) -> (k: DatabaseKeyIndex)
        ensures
            k == Self::spec_from_code(c),
            k.spec_code() == c,
    {
        let g: u64 = c / 0x1_0000_0000_0000;
        let rest: u64 = c % 0x1_0000_0000_0000;
        let q: u64 = rest / 0x1_0000_0000;
        let k: u64 = rest % 0x1_0000_0000;
        proof {
            Self::lemma_code_round_trip(Self::spec_from_code(c), c);
        }
        DatabaseKeyIndex { group_index: g as u16, query_index: q as u16, key_index: k as u32 }
    }

    /// `code` loses nothing: different names have different codes.
    pub proof fn lemma_code_injective(a: DatabaseKeyIndex, b: DatabaseKeyIndex)
        ensures
            a.spec_code() == b.spec_code() <==> a == b,
    {
        Self::lemma_code_round_trip(a, 0);
        Self::lemma_code_round_trip(b, 0);
    }

    /// `from_code` undoes `code`, and `code` undoes `from_code`.
    pub proof fn lemma_code_round_trip(k: DatabaseKeyIndex, c: u64)
        ensures
            Self::spec_from_code(k.spec_code()) == k,
            Self::spec_from_code(c).spec_code() == c,
    {
        let high: int = 0x1_0000_0000_0000;
        let low: int = 0x1_0000_0000;
        let g = k.group_index as int;
        let q = k.query_index as int;
        let i = k.key_index as int;
        let rest = q * low + i;
        assert(k.spec_code() as int == g * high + rest);
        vstd::arithmetic::div_mod::lemma_fundamental_div_mod_converse(
            k.spec_code() as int,
            high,
            g,
            rest,
        );
        vstd::arithmetic::div_mod::lemma_fundamental_div_mod_converse(rest, low, q, i);
        let cc = c as int;
        vstd::arithmetic::div_mod::lemma_fundamental_div_mod(cc, high);
        vstd::arithmetic::div_mod::lemma_fundamental_div_mod(cc % high, low);
        assert(0 <= cc / high < 0x1_0000);
        assert(0 <= (cc % high) / low < 0x1_0000);
        assert(0 <= (cc % high) % low < low);
        assert(high * (cc / high) == (cc / high) * high);
        assert(low * ((cc % high) / low) == ((cc % high) / low) * low);
    }
}

/// Adds to `out` what `src` holds from the place `start` on.
pub fn append_from(out: &mut Vec<DatabaseKeyIndex>, src: &[DatabaseKeyIndex], start: usize)
    requires
        start <= src.len(),
    ensures
        final(out)@ == old(out)@ + src@.subrange(start as int, src.len() as int),
{
    let mut i: usize = start;
    while i < src.len()
        invariant
            start <= i <= src.len(),
            out@ == old(out)@ + src@.subrange(start as int, i as int),
        decreases src.len() - i,
    {
        out.push(src[i]);
        assert(out@ =~= old(out)@ + src@.subrange(start as int, i + 1));
        i = i + 1;
    }
    assert(out@ =~= old(out)@ + src@.subrange(start as int, src.len() as int));
}

/// A list with the same names as `src`.
pub fn copy_keys(src: &[DatabaseKeyIndex]) -> (out: Vec<DatabaseKeyIndex>)
    ensures
        out@ == src@,
{
    let mut out: Vec<DatabaseKeyIndex> = Vec::new();
    append_from(&mut out, src, 0);
    assert(src@.subrange(0, src.len() as int) =~= src@);
    out
}

/// Whether `keys` holds `key`.
pub fn holds_key(keys: &[DatabaseKeyIndex], key: DatabaseKeyIndex) -> (found: bool)
    ensures
        found == keys@.contains(key),
{
    let mut i: usize = 0;
    while i < keys.len()
        invariant
            i <= keys.len(),
            forall|j: int| 0 <= j < i ==> keys@[j] != key,
        decreases keys.len() - i,
    {
        if keys[i] == key {
            return true;
        }
        i = i + 1;
    }
    false
}

} // verus!
