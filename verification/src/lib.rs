//! A small dataflow execution engine.
//!
//! Pipelines are described as chains of transformation stages (filter,
//! filter-map, map, flatten) that are compiled into schedulable units
//! ("subgraphs") wired together by data-transfer edges ("handoffs").
//! A scheduler drives the subgraphs to a local fixpoint on each external
//! trigger ("tick"), and a thread-safe handle (the reactor) lets other
//! threads re-trigger subgraphs without owning the engine.

pub mod chan;
pub mod graph;
pub mod handoff;
pub mod pull;
pub mod push;
pub mod reactor;
pub mod stage;
pub mod surface;
