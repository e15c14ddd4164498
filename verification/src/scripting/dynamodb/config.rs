//! The configuration of a client.

use vstd::prelude::*;

verus! {

/// How bodies are compressed.
#[derive(Debug, Clone, Copy, PartialEq, Eq, Structural)]
pub enum DynamoDbCompression {
    Off,
    Gzip,
}

/// How the bodies of requests are compressed.
#[derive(Debug, Clone, Copy, PartialEq, Eq, Structural)]
pub struct RequestCompressionConf {
    pub algorithm: DynamoDbCompression,
    /// The smallest body that is compressed, in bytes.
    pub min_size: usize,
}

impl RequestCompressionConf {
    /// Whether bodies are compressed at all.
    pub fn is_enabled(&self) -> (r: bool)
        ensures
            r == (self.algorithm != DynamoDbCompression::Off),
    {
        self.algorithm != DynamoDbCompression::Off
    }
}

impl Default for RequestCompressionConf {
    fn default() -> (conf: RequestCompressionConf)
        ensures
            conf == (RequestCompressionConf {
                algorithm: DynamoDbCompression::Off,
                min_size: 1024,
            }),
    {
        RequestCompressionConf { algorithm: DynamoDbCompression::Off, min_size: 1024 }
    }
}

/// How the bodies of responses may be compressed.
#[derive(Debug, Clone, Copy, PartialEq, Eq, Structural)]
pub struct ResponseCompressionConf {
    pub accept_compression_enabled: bool,
    pub algorithm: DynamoDbCompression,
}

/// How bodies are compressed in both directions.
#[derive(Debug, Clone, Copy, PartialEq, Eq, Structural)]
pub struct CompressionConf {
    pub request: RequestCompressionConf,
    pub response: ResponseCompressionConf,
}

/// How a client reaches the database.
#[derive(Debug)]
pub struct DynamoDbConf {
    pub enabled: bool,
    pub endpoint: Option<String>,
    pub region: String,
    pub access_key_id: Option<String>,
    pub secret_access_key: Option<String>,
    pub max_connections: usize,
    pub connect_timeout_ms: u64,
    pub read_timeout_ms: u64,
    pub max_retries: u32,
    pub compression: CompressionConf,
    pub alternator_driver_socket: Option<String>,
    pub alternator_adapter_image: Option<String>,
}

} // verus!
