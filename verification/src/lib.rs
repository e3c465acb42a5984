//! Core of a daemon that loads, chains, and unloads in-kernel data-plane
//! programs. Several client programs share one kernel attachment point per
//! network interface: a small dispatcher program tail-calls them in priority
//! order, and every chain mutation replaces the dispatcher under a fresh
//! revision so that a failed mutation leaves the previous chain serving.

pub mod bytes;
pub mod chain;
pub mod dispatcher;
pub mod errors;
pub mod laws;
pub mod manager;
pub mod proceed_on;
pub mod registry;
pub mod store;
pub mod types;
