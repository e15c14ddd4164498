//! The adapter's server: what it answers to each request.

pub mod config;
pub mod server;
