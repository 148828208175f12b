//! Queries whose value is computed from other queries.

use vstd::prelude::*;

pub mod slot;

verus! {

/// Decides, for the values of one query, what is kept between revisions and
/// when a recomputed value counts as unchanged.
pub trait MemoizationPolicy<K, V> {
    /// Whether the value computed for `key` is kept. Where it is not, what the
    /// value was computed from is recorded all the same.
    fn should_memoize_value(key: &K) -> bool;

    /// Whether a recomputed value is the same as the one that was kept. Where
    /// it is, whoever read the old value need not be recomputed.
    fn memoized_value_eq(old_value: &V, new_value: &V) -> bool;
}

} // verus!
