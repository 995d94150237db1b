//! Node selection for a client of a partitioned, replicated database cluster:
//! statement configuration, routing intents, topology snapshots, latency
//! tracking and the default load-balancing policy.

pub mod failure;
pub mod guarantees;
pub mod latency;
pub mod policy;
pub mod ranking;
pub mod replication;
pub mod routing;
pub mod statement;
pub mod topology;
