//! The wire formats, value model and decision logic of the latte benchmark's
//! driver IPC, with contracts that are checked by Verus.

pub mod cql_adapter;
pub mod dash;
pub mod driver_adapter;
pub mod error;
pub mod exec;
pub mod ipc;
pub mod number;
pub mod reader;
pub mod scripting;
pub mod string_map;
pub mod text;
pub mod text_map;
pub mod value;
pub mod vint;
pub mod wire;
