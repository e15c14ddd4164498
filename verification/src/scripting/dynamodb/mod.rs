//! Workloads against databases that speak the DynamoDB protocol.

pub mod batch;
pub mod client;
pub mod compression;
pub mod config;
pub mod context;
pub mod context_laws;
pub mod error;
pub mod operations;
pub mod options;
pub mod script_laws;
pub mod types;
