//! How workload scripts reach a database.

pub mod connect;
pub mod dynamodb;
