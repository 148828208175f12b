//! Cycles among queries, as they are found and as they are reported.

use crate::durability::Durability;
use crate::key::DatabaseKeyIndex;
use crate::revision::Revision;
use crate::runtime::RuntimeId;
use crate::runtime::StampedValue;
use vstd::prelude::*;

verus! {

/// Says that the runtime `from` found that it cannot wait for `to`: they are
/// the same runtime, or `to` already waits for `from`.
#[derive(Clone, Copy, Debug, PartialEq, Eq, Structural)]
pub struct CycleDetected {
    /// The runtime that was about to wait.
    pub from: RuntimeId,
    /// The runtime that it would have waited for.
    pub to: RuntimeId,
}

/// The error returned when a query could not be resolved due to a cycle.
#[derive(Eq, PartialEq, Clone, Debug)]
pub struct CycleError<K> {
    /// The queries that were part of the cycle, in the order in which they
    /// were entered.
    pub cycle: Vec<K>,
    /// The revision in which the result counts as changed.
    pub changed_at: Revision,
    /// The durability that the result counts as having.
    pub durability: Durability,
}

impl CycleError<DatabaseKeyIndex> {
    /// What a read that met a cycle returns, once the query's own recovery has
    /// been asked: the value that it gave, stamped as the cycle was, or the
    /// cycle as an error where it gave none.
    pub fn recovered<V>(self, recovered: Option<V>) -> (r: Result<
        StampedValue<V>,
        CycleError<DatabaseKeyIndex>,
    >)
        ensures
            r == match recovered {
                Some(value) => Ok::<StampedValue<V>, CycleError<DatabaseKeyIndex>>(
                    StampedValue {
                        value,
                        durability: self.durability,
                        changed_at: self.changed_at,
                    },
                ),
                None => Err(self),
            },
    {
        match recovered {
            Some(value) => Ok(
                StampedValue { value, durability: self.durability, changed_at: self.changed_at },
            ),
            None => Err(self),
        }
    }
}

} // verus!
