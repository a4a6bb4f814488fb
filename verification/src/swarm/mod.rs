//! The swarm: consensus over findings, shared state, and task execution.
pub mod consensus;
pub mod manager;
pub mod state;
