//! Reconciliation of declared application settings against a remote
//! key-value store reached through a versioned HTTP API.
//!
//! The library holds the declarative model, builds every request that is to
//! be sent, classifies every answer, and runs push and pull batches as step
//! machines; the caller performs the exchanges and hands the answers back.

pub mod settings;
pub mod config;
pub mod json;
pub mod platform;
pub mod report;
pub mod push;
pub mod pull;
