//! Coordination of sequencer nodes that take turns leading rounds of block
//! production for registered rollups.
//!
//! The crate holds the registries, the leader election and the round state
//! machine. Every transition is a function from the state before a request to
//! the state after it, so a caller runs one transition inside one lock scope
//! of whatever store keeps the state.

pub mod coordinator;
pub mod election;
pub mod error;
pub mod interface;
pub mod laws;
pub mod model;
pub mod rollup;
pub mod round;
pub mod sequencer;
