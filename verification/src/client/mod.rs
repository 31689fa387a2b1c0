//! The mirrored pod set and the watch engine that keeps it current.
pub mod endpoint;
pub mod error;
pub mod frames;
pub mod json;
pub mod namespaces;
pub mod nodes;
pub mod pods;
pub mod reconcile;
pub mod replica_sets;
pub mod session;
pub mod targets;
pub mod watch;
