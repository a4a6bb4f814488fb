//! SwarmOps: a swarm of analysis agents whose findings are merged by
//! consensus.
pub mod agents;
pub mod buckets;
pub mod ids;
pub mod models;
pub mod routes;
pub mod services;
pub mod swarm;
pub mod text;
