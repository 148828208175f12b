//! The core of an incremental computation engine.
//!
//! Queries are pure functions over a database of inputs; the engine memoizes
//! their results and, when inputs change, recomputes only what is affected.
//! This crate holds the bookkeeping that decides when a memoized result may be
//! reused: revisions and durabilities, the per-runtime stack of active queries,
//! the graph of runtimes blocked on one another, the state machine of a derived
//! slot, the interning tables and the sweep policy.
//!
//! Every operation is a step on plain owned state. A concurrent database wraps
//! the state in its own locks and runs one step at a time under them.

pub mod revision;
pub mod durability;
pub mod key;
pub mod graph_model;
pub mod collections;
pub mod runtime;
pub mod graph;
pub mod local_state;
pub mod cycle;
pub mod event;
pub mod sweep;
pub mod derived;
pub mod intern_id;
pub mod interned;

pub use crate::revision::Revision;
pub use crate::durability::Durability;
pub use crate::key::DatabaseKeyIndex;
pub use crate::runtime::RuntimeId;
pub use crate::runtime::Runtime;
pub use crate::runtime::forker;
pub use crate::runtime::Forker;
pub use crate::runtime::ForkState;
pub use crate::cycle::CycleError;
pub use crate::event::Event;
pub use crate::event::EventKind;
pub use crate::sweep::SweepStrategy;
pub use crate::intern_id::InternId;
pub use crate::interned::InternKey;
