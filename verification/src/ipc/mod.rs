//! The client side of the driver IPC.

pub mod alternator_client;
pub mod alternator_codec;
pub mod alternator_laws;
pub mod alternator_protocol;
pub mod alternator_request_laws;
pub mod alternator_result_laws;
pub mod alternator_results;
pub mod attribute;
pub mod batching;
pub mod client;
pub mod decode;
pub mod docker;
pub mod encode;
pub mod pending;
pub mod protocol;
pub mod session_manager;
pub mod types;
