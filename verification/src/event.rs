//! What the engine tells its database of while it works.

use crate::key::DatabaseKeyIndex;
use crate::runtime::RuntimeId;
use vstd::prelude::*;

verus! {

/// The `Event` struct identifies various notable things that can
/// occur during execution. Instances of this struct are given
/// to the database's event hook.
#[derive(Clone, Copy, Debug, PartialEq, Eq, Structural)]
pub struct Event {
    /// The id of the snapshot that triggered the event. Usually
    /// 1-to-1 with a thread, as well.
    pub runtime_id: RuntimeId,
    /// What sort of event was it.
    pub kind: EventKind,
}

/// An enum identifying the various kinds of events that can occur.
#[derive(Clone, Copy, Debug, PartialEq, Eq, Structural)]
pub enum EventKind {
    /// Occurs when we found that all inputs to a memoized value are
    /// up-to-date and hence the value can be re-used without
    /// executing the query function.
    DidValidateMemoizedValue {
        /// The database-key for the affected value.
        database_key: DatabaseKeyIndex,
    },
    /// Indicates that another runtime (with id `other_runtime_id`) is
    /// processing the given query (`database_key`), so we will block until
    /// they finish.
    WillBlockOn {
        /// The id of the runtime we will block on.
        other_runtime_id: RuntimeId,
        /// The database-key for the affected value.
        database_key: DatabaseKeyIndex,
    },
    /// Indicates that the function for this query will be executed.
    /// This is either because it has never executed before or because
    /// its inputs may be out of date.
    WillExecute {
        /// The database-key for the affected value.
        database_key: DatabaseKeyIndex,
    },
}

} // verus!
