//! The compression of request bodies.

use super::config::{DynamoDbCompression, RequestCompressionConf};
use flate2::write::GzEncoder;
use flate2::Compression;
use std::io::Write;
use vstd::prelude::*;
use vstd::std_specs::convert::FromSpecImpl;
use vstd::string::*;

verus! {

/// How request bodies are compressed.
#[derive(Debug, Clone, Copy, PartialEq, Eq, Structural)]
pub struct RequestCompressionConfig {
    conf: RequestCompressionConf,
}

/// A body that was compressed.
#[derive(Debug)]
pub struct CompressedData {
    pub data: Vec<u8>,
    /// The content encoding.
    pub encoding: &'static str,
}

impl Default for RequestCompressionConfig {
    fn default() -> (config: RequestCompressionConfig)
        ensures
            config.algorithm_of() == DynamoDbCompression::Off,
            config.threshold() == 1024,
    {
        RequestCompressionConfig { conf: RequestCompressionConf::default() }
    }
}

impl From<RequestCompressionConf> for RequestCompressionConfig {
    fn from(conf: RequestCompressionConf) -> (config: RequestCompressionConfig)
        ensures
            config.algorithm_of() == conf.algorithm,
            config.threshold() == conf.min_size,
    {
        RequestCompressionConfig { conf }
    }
}

impl FromSpecImpl<RequestCompressionConf> for RequestCompressionConfig {
    open spec fn obeys_from_spec() -> bool {
        true
    }

    closed spec fn from_spec(conf: RequestCompressionConf) -> RequestCompressionConfig {
        RequestCompressionConfig { conf }
    }
}

/// What `flate2::write::GzEncoder` makes of data at the default level.
pub uninterp spec fn gzipped(data: Seq<u8>) -> Option<Seq<u8>>;

/// `flate2::write::GzEncoder` at `flate2::Compression::default()`: the gzip
/// stream of the data, written into memory, or nothing where the encoder
/// reports an error. The header that flate2 writes holds no time and no
/// operating system, so the stream depends on the data alone; it has a name.
#[verifier::external_body]
fn gzip(data: &[u8]) -> (r: Option<Vec<u8>>)
    ensures
        match r {
            Some(bytes) => gzipped(data@) == Some(bytes@),
            None => gzipped(data@) is None,
        },
{
    let mut encoder = GzEncoder::new(Vec::new(), Compression::default());
    match encoder.write_all(data) {
        Ok(()) => encoder.finish().ok(),
        Err(_) => None,
    }
}

/// The compressed form of a body of some length is used only where it is smaller.
pub fn keep_if_smaller(length: usize, compressed: Option<Vec<u8>>) -> (r: Option<CompressedData>)
    ensures
        match compressed {
            Some(bytes) => if bytes@.len() < length {
                r matches Some(c) && c.data@ == bytes@ && c.encoding@ == "gzip"@
            } else {
                r is None
            },
            None => r is None,
        },
{
    match compressed {
        Some(data) => if data.len() < length {
            Some(CompressedData { data, encoding: "gzip" })
        } else {
            None
        },
        None => None,
    }
}

impl RequestCompressionConfig {
    /// The algorithm.
    pub closed spec fn algorithm_of(self) -> DynamoDbCompression {
        self.conf.algorithm
    }

    /// The smallest body that is compressed.
    pub closed spec fn threshold(self) -> usize {
        self.conf.min_size
    }

    /// A body of some length is compressed.
    pub open spec fn compresses(self, length: int) -> bool {
        self.algorithm_of() != DynamoDbCompression::Off && length >= self.threshold()
    }

    /// Compression with an algorithm from a size on.
    pub fn new(algorithm: DynamoDbCompression, min_size: usize) -> (config:
        RequestCompressionConfig)
        ensures
            config.algorithm_of() == algorithm,
            config.threshold() == min_size,
    {
        RequestCompressionConfig { conf: RequestCompressionConf { algorithm, min_size } }
    }

    /// Whether bodies are compressed at all.
    pub fn is_enabled(&self) -> (r: bool)
        ensures
            r == (self.algorithm_of() != DynamoDbCompression::Off),
    {
        self.conf.is_enabled()
    }

    /// The algorithm.
    pub fn algorithm(&self) -> (a: DynamoDbCompression)
        ensures
            a == self.algorithm_of(),
    {
        self.conf.algorithm
    }

    /// The smallest body that is compressed.
    pub fn min_size(&self) -> (n: usize)
        ensures
            n == self.threshold(),
    {
        self.conf.min_size
    }

    /// Whether a body of some size is compressed.
    pub fn should_compress(&self, body_size: usize) -> (r: bool)
        ensures
            r == self.compresses(body_size as int),
    {
        self.is_enabled() && body_size >= self.conf.min_size
    }

    /// Compresses a body. There is no result where compression is off, the
    /// body too small, or the compressed form not smaller.
    pub fn compress(&self, data: &[u8]) -> (r: Option<CompressedData>)
        ensures
            match gzipped(data@) {
                Some(bytes) => if self.compresses(data@.len() as int) && bytes.len() < data@.len() {
                    r matches Some(c) && c.data@ == bytes && c.encoding@ == "gzip"@
                } else {
                    r is None
                },
                None => r is None,
            },
    {
        if !self.should_compress(data.len()) {
            return None;
        }
        keep_if_smaller(data.len(), gzip(data))
    }

    /// The content encoding of compressed bodies.
    pub fn content_encoding(&self) -> (r: Option<&'static str>)
        ensures
            match self.algorithm_of() {
                DynamoDbCompression::Off => r is None,
                DynamoDbCompression::Gzip => r matches Some(t) && t@ == "gzip"@,
            },
    {
        match self.conf.algorithm {
            DynamoDbCompression::Off => None,
            DynamoDbCompression::Gzip => Some("gzip"),
        }
    }
}

} // verus!
