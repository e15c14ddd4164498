//! The execution of workloads.

pub mod workload;
