//! The driver adapter's side of the IPC: decoding of requests, conversion of
//! values to the types of their columns, and encoding of results.

pub mod collection_laws;
pub mod config;
pub mod convert;
pub mod convert_laws;
pub mod decode;
pub mod decode_laws;
pub mod details;
pub mod driver_integration;
pub mod duration;
pub mod encode;
pub mod frames;
pub mod laws;
pub mod messages;
pub mod nested_laws;
pub mod plan;
pub mod plan_laws;
pub mod protocol;
pub mod reading_laws;
pub mod registry;
pub mod reply_laws;
pub mod request_laws;
pub mod sending_laws;
pub mod session;
