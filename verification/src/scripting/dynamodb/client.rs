//! How a client is configured, and what it decides around its requests.

use super::compression::RequestCompressionConfig;
use super::config::{
    CompressionConf, DynamoDbCompression, DynamoDbConf, RequestCompressionConf,
    ResponseCompressionConf,
};
use super::error::{DynamoError, DynamoErrorKind};
use super::operations::ProvisionedThroughput;
use super::types::{fields, Script, ScriptValue};
use crate::exec::workload::seed_of;
use crate::text::{both, copy_opt, opt_text, same_text};
use vstd::prelude::*;
use vstd::string::*;

verus! {

/// The lowest 64 bits of a signed number.
pub open spec fn low64(n: i64) -> int {
    n as int % 0x1_0000_0000_0000_0000
}

/// The lowest bits of a signed number, as many as a word of the machine has.
pub open spec fn low_word(n: i64) -> int {
    low64(n) % (usize::MAX + 1)
}

/// The lowest 32 bits of a signed number.
pub open spec fn low32(n: i64) -> int {
    n as int % 0x1_0000_0000
}

/// The lowest 64 bits of a signed number.
fn to_u64(n: i64) -> (r: u64)
    ensures
        r == low64(n),
{
    seed_of(n)
}

/// The lowest bits of a signed number, as many as a word of the machine has.
fn to_word(n: i64) -> (r: usize)
    ensures
        r == low_word(n),
{
    ((to_u64(n) as u128) % (usize::MAX as u128 + 1)) as usize
}

/// The lowest 32 bits of a signed number.
fn to_u32(n: i64) -> (r: u32)
    ensures
        r == low32(n),
{
    (to_u64(n) % 0x1_0000_0000) as u32
}

/// What scripts configure a client with.
#[derive(Debug)]
pub struct SessionConfig {
    pub endpoint: Option<String>,
    pub region: String,
    pub access_key_id: Option<String>,
    pub secret_access_key: Option<String>,
    pub max_connections: usize,
    pub connect_timeout_ms: u64,
    pub read_timeout_ms: u64,
    pub max_retries: u32,
    pub request_compression: DynamoDbCompression,
    pub request_compression_min_size: usize,
    pub response_compression: DynamoDbCompression,
}

impl SessionConfig {
    /// Every setting has its default.
    pub open spec fn is_default(self) -> bool {
        &&& self.endpoint is None
        &&& self.region@ == "us-east-1"@
        &&& self.access_key_id is None
        &&& self.secret_access_key is None
        &&& self.max_connections == 100
        &&& self.connect_timeout_ms == 5000
        &&& self.read_timeout_ms == 30000
        &&& self.max_retries == 3
        &&& self.request_compression == DynamoDbCompression::Off
        &&& self.request_compression_min_size == 1024
        &&& self.response_compression == DynamoDbCompression::Off
    }
}

impl Default for SessionConfig {
    fn default() -> (config: SessionConfig)
        ensures
            config.is_default(),
    {
        SessionConfig {
            endpoint: None,
            region: "us-east-1".to_owned(),
            access_key_id: None,
            secret_access_key: None,
            max_connections: 100,
            connect_timeout_ms: 5000,
            read_timeout_ms: 30000,
            max_retries: 3,
            request_compression: DynamoDbCompression::Off,
            request_compression_min_size: 1024,
            response_compression: DynamoDbCompression::Off,
        }
    }
}

/// A configuration with defaults.
pub fn session_config() -> (config: SessionConfig)
    ensures
        config.is_default(),
{
    SessionConfig::new()
}

/// An optional text has these characters.
pub open spec fn is_text(s: Option<String>, t: Seq<char>) -> bool {
    s is Some && s->0@ == t
}

impl SessionConfig {
    /// A configuration with defaults.
    pub fn new() -> (config: SessionConfig)
        ensures
            config.is_default(),
    {
        SessionConfig::default()
    }

    /// Sets the URL of the endpoint.
    pub fn endpoint(self, endpoint: &str) -> (config: SessionConfig)
        ensures
            is_text(config.endpoint, endpoint@),
            config == (SessionConfig { endpoint: config.endpoint, ..self }),
    {
        let mut config: SessionConfig = self;
        config.endpoint = Some(endpoint.to_owned());
        config
    }

    /// Sets the region.
    pub fn region(self, region: &str) -> (config: SessionConfig)
        ensures
            config.region@ == region@,
            config == (SessionConfig { region: config.region, ..self }),
    {
        let mut config: SessionConfig = self;
        config.region = region.to_owned();
        config
    }

    /// Sets the id of the access key.
    pub fn access_key_id(self, access_key_id: &str) -> (config: SessionConfig)
        ensures
            is_text(config.access_key_id, access_key_id@),
            config == (SessionConfig { access_key_id: config.access_key_id, ..self }),
    {
        let mut config: SessionConfig = self;
        config.access_key_id = Some(access_key_id.to_owned());
        config
    }

    /// Sets the secret access key.
    pub fn secret_access_key(self, secret_access_key: &str) -> (config: SessionConfig)
        ensures
            is_text(config.secret_access_key, secret_access_key@),
            config == (SessionConfig { secret_access_key: config.secret_access_key, ..self }),
    {
        let mut config: SessionConfig = self;
        config.secret_access_key = Some(secret_access_key.to_owned());
        config
    }

    /// Sets the number of connections.
    pub fn max_connections(self, max_connections: i64) -> (config: SessionConfig)
        ensures
            config == (SessionConfig { max_connections: low_word(max_connections) as usize, ..self }),
    {
        let mut config: SessionConfig = self;
        config.max_connections = to_word(max_connections);
        config
    }

    /// Sets the timeout of a connection attempt.
    pub fn connect_timeout_ms(self, timeout_ms: i64) -> (config: SessionConfig)
        ensures
            config == (SessionConfig { connect_timeout_ms: low64(timeout_ms) as u64, ..self }),
    {
        let mut config: SessionConfig = self;
        config.connect_timeout_ms = to_u64(timeout_ms);
        config
    }

    /// Sets the timeout of a read.
    pub fn read_timeout_ms(self, timeout_ms: i64) -> (config: SessionConfig)
        ensures
            config == (SessionConfig { read_timeout_ms: low64(timeout_ms) as u64, ..self }),
    {
        let mut config: SessionConfig = self;
        config.read_timeout_ms = to_u64(timeout_ms);
        config
    }

    /// Sets how often a request is repeated.
    pub fn max_retries(self, max_retries: i64) -> (config: SessionConfig)
        ensures
            config == (SessionConfig { max_retries: low32(max_retries) as u32, ..self }),
    {
        let mut config: SessionConfig = self;
        config.max_retries = to_u32(max_retries);
        config
    }

    /// Sets how requests are compressed.
    pub fn request_compression(self, algorithm: DynamoDbCompression) -> (config: SessionConfig)
        ensures
            config == (SessionConfig { request_compression: algorithm, ..self }),
    {
        let mut config: SessionConfig = self;
        config.request_compression = algorithm;
        config
    }

    /// Sets the smallest request that is compressed.
    pub fn request_compression_min_size(self, min_size: i64) -> (config: SessionConfig)
        ensures
            config == (SessionConfig {
                request_compression_min_size: low_word(min_size) as usize,
                ..self
            }),
    {
        let mut config: SessionConfig = self;
        config.request_compression_min_size = to_word(min_size);
        config
    }

    /// Sets how responses are compressed.
    pub fn response_compression(self, algorithm: DynamoDbCompression) -> (config: SessionConfig)
        ensures
            config == (SessionConfig { response_compression: algorithm, ..self }),
    {
        let mut config: SessionConfig = self;
        config.response_compression = algorithm;
        config
    }

    /// A client is configured as the session asks for.
    pub open spec fn gives(self, conf: DynamoDbConf) -> bool {
        &&& conf.enabled
        &&& opt_text(conf.endpoint) == opt_text(self.endpoint)
        &&& conf.region@ == self.region@
        &&& opt_text(conf.access_key_id) == opt_text(self.access_key_id)
        &&& opt_text(conf.secret_access_key) == opt_text(self.secret_access_key)
        &&& conf.max_connections == self.max_connections
        &&& conf.connect_timeout_ms == self.connect_timeout_ms
        &&& conf.read_timeout_ms == self.read_timeout_ms
        &&& conf.max_retries == self.max_retries
        &&& conf.compression == compression_of(
            self.request_compression,
            self.request_compression_min_size,
            self.response_compression,
        )
        &&& conf.alternator_driver_socket is None
        &&& conf.alternator_adapter_image is None
    }

    /// The configuration of the client.
    pub fn to_dynamo_conf(&self) -> (conf: DynamoDbConf)
        ensures
            self.gives(conf),
    {
        DynamoDbConf {
            enabled: true,
            endpoint: copy_opt(&self.endpoint),
            region: self.region.clone(),
            access_key_id: copy_opt(&self.access_key_id),
            secret_access_key: copy_opt(&self.secret_access_key),
            max_connections: self.max_connections,
            connect_timeout_ms: self.connect_timeout_ms,
            read_timeout_ms: self.read_timeout_ms,
            max_retries: self.max_retries,
            compression: compression_conf(
                self.request_compression,
                self.request_compression_min_size,
                self.response_compression,
            ),
            alternator_driver_socket: None,
            alternator_adapter_image: None,
        }
    }
}

/// Compression in both directions. Compressed responses are accepted where an algorithm is set.
pub open spec fn compression_of(
    request: DynamoDbCompression,
    min_size: usize,
    response: DynamoDbCompression,
) -> CompressionConf {
    CompressionConf {
        request: RequestCompressionConf { algorithm: request, min_size },
        response: ResponseCompressionConf {
            accept_compression_enabled: response != DynamoDbCompression::Off,
            algorithm: response,
        },
    }
}

/// Compression in both directions.
fn compression_conf(
    request: DynamoDbCompression,
    min_size: usize,
    response: DynamoDbCompression,
) -> (conf: CompressionConf)
    ensures
        conf == compression_of(request, min_size, response),
{
    CompressionConf {
        request: RequestCompressionConf { algorithm: request, min_size },
        response: ResponseCompressionConf {
            accept_compression_enabled: response != DynamoDbCompression::Off,
            algorithm: response,
        },
    }
}

/// The value of the first field with a name.
pub open spec fn field_of(s: Seq<(Seq<char>, Script)>, name: Seq<char>) -> Option<Script>
    decreases s.len(),
{
    if s.len() == 0 {
        None
    } else if s[0].0 == name {
        Some(s[0].1)
    } else {
        field_of(s.skip(1), name)
    }
}

/// The string that a field holds, if it holds one.
pub open spec fn string_field(s: Seq<(Seq<char>, Script)>, name: Seq<char>) -> Option<Seq<char>> {
    match field_of(s, name) {
        Some(Script::Text(t)) => Some(t),
        _ => None,
    }
}

/// The integer that a field holds, if it holds one.
pub open spec fn integer_field(s: Seq<(Seq<char>, Script)>, name: Seq<char>) -> Option<i64> {
    match field_of(s, name) {
        Some(Script::Integer(n)) => Some(n),
        _ => None,
    }
}

/// The truth value that a field holds, if it holds one.
pub open spec fn bool_field(s: Seq<(Seq<char>, Script)>, name: Seq<char>) -> Option<bool> {
    match field_of(s, name) {
        Some(Script::Bool(b)) => Some(b),
        _ => None,
    }
}

/// The value of the first field with a name.
pub fn get_field<'a>(object: &'a Vec<(String, ScriptValue)>, name: &str) -> (r: Option<
    &'a ScriptValue,
>)
    ensures
        match r {
            Some(v) => field_of(fields(object@), name@) == Some(v@),
            None => field_of(fields(object@), name@) is None,
        },
{
    let ghost s = fields(object@);
    let mut i: usize = 0;
    assert(s.skip(0) =~= s);
    while i < object.len()
        invariant
            i <= object@.len(),
            s == fields(object@),
            field_of(s, name@) == field_of(s.skip(i as int), name@),
        decreases object@.len() - i,
    {
        assert(s.skip(i as int)[0] == (object@[i as int].0@, object@[i as int].1@));
        assert(s.skip(i as int).skip(1) =~= s.skip(i + 1));
        if same_text(object[i].0.as_str(), name) {
            return Some(&object[i].1);
        }
        i = i + 1;
    }
    assert(s.skip(i as int) =~= Seq::empty());
    None
}

/// The string that a field holds, if it holds one.
pub fn get_opt_string(object: &Vec<(String, ScriptValue)>, name: &str) -> (r: Option<String>)
    ensures
        opt_text(r) == string_field(fields(object@), name@),
{
    match get_field(object, name) {
        Some(ScriptValue::Text(t)) => Some(t.clone()),
        _ => None,
    }
}

/// The integer that a field holds, if it holds one.
pub fn get_opt_i64(object: &Vec<(String, ScriptValue)>, name: &str) -> (r: Option<i64>)
    ensures
        r == integer_field(fields(object@), name@),
{
    match get_field(object, name) {
        Some(ScriptValue::Integer(n)) => Some(*n),
        _ => None,
    }
}

/// The truth value that a field holds, if it holds one.
pub fn get_opt_bool(object: &Vec<(String, ScriptValue)>, name: &str) -> (r: Option<bool>)
    ensures
        r == bool_field(fields(object@), name@),
{
    match get_field(object, name) {
        Some(ScriptValue::Bool(b)) => Some(*b),
        _ => None,
    }
}

/// The compression that a field names; none where it names none that is known.
pub open spec fn compression_field(s: Seq<(Seq<char>, Script)>, name: Seq<char>) ->
    DynamoDbCompression {
    match string_field(s, name) {
        Some(t) => if t == "gzip"@ {
            DynamoDbCompression::Gzip
        } else {
            DynamoDbCompression::Off
        },
        None => DynamoDbCompression::Off,
    }
}

/// The compression that a field names.
fn get_compression(object: &Vec<(String, ScriptValue)>, name: &str) -> (c: DynamoDbCompression)
    ensures
        c == compression_field(fields(object@), name@),
{
    match get_field(object, name) {
        Some(ScriptValue::Text(t)) => if same_text(t.as_str(), "gzip") {
            DynamoDbCompression::Gzip
        } else {
            DynamoDbCompression::Off
        },
        _ => DynamoDbCompression::Off,
    }
}

/// A number, or a default.
pub open spec fn number_or(n: Option<i64>, default: int, low: spec_fn(i64) -> int) -> int {
    match n {
        Some(n) => low(n),
        None => default,
    }
}

/// A client is configured as an object of a script asks for. A field of
/// another type than its setting counts as not there.
pub open spec fn configures(s: Seq<(Seq<char>, Script)>, conf: DynamoDbConf) -> bool {
    &&& conf.enabled
    &&& opt_text(conf.endpoint) == string_field(s, "endpoint"@)
    &&& conf.region@ == (match string_field(s, "region"@) {
        Some(t) => t,
        None => "us-east-1"@,
    })
    &&& opt_text(conf.access_key_id) == string_field(s, "access_key_id"@)
    &&& opt_text(conf.secret_access_key) == string_field(s, "secret_access_key"@)
    &&& conf.max_connections == number_or(
        integer_field(s, "max_connections"@),
        100,
        |n: i64| low_word(n),
    )
    &&& conf.connect_timeout_ms == number_or(
        integer_field(s, "connect_timeout_ms"@),
        5000,
        |n: i64| low64(n),
    )
    &&& conf.read_timeout_ms == number_or(
        integer_field(s, "read_timeout_ms"@),
        30000,
        |n: i64| low64(n),
    )
    &&& conf.max_retries == number_or(integer_field(s, "max_retries"@), 3, |n: i64| low32(n))
    &&& conf.compression == compression_of(
        compression_field(s, "request_compression"@),
        number_or(
            integer_field(s, "request_compression_min_size"@),
            1024,
            |n: i64| low_word(n),
        ) as usize,
        compression_field(s, "response_compression"@),
    )
    &&& conf.alternator_driver_socket is None
    &&& conf.alternator_adapter_image is None
}

/// The configuration of a client that an object of a script asks for.
pub fn rune_conf(config: &Vec<(String, ScriptValue)>) -> (conf: DynamoDbConf)
    ensures
        configures(fields(config@), conf),
{
    let region: String = match get_opt_string(config, "region") {
        Some(region) => region,
        None => "us-east-1".to_owned(),
    };
    let max_connections: usize = match get_opt_i64(config, "max_connections") {
        Some(n) => to_word(n),
        None => 100,
    };
    let connect_timeout_ms: u64 = match get_opt_i64(config, "connect_timeout_ms") {
        Some(n) => to_u64(n),
        None => 5000,
    };
    let read_timeout_ms: u64 = match get_opt_i64(config, "read_timeout_ms") {
        Some(n) => to_u64(n),
        None => 30000,
    };
    let max_retries: u32 = match get_opt_i64(config, "max_retries") {
        Some(n) => to_u32(n),
        None => 3,
    };
    let min_size: usize = match get_opt_i64(config, "request_compression_min_size") {
        Some(n) => to_word(n),
        None => 1024,
    };
    DynamoDbConf {
        enabled: true,
        endpoint: get_opt_string(config, "endpoint"),
        region,
        access_key_id: get_opt_string(config, "access_key_id"),
        secret_access_key: get_opt_string(config, "secret_access_key"),
        max_connections,
        connect_timeout_ms,
        read_timeout_ms,
        max_retries,
        compression: compression_conf(
            get_compression(config, "request_compression"),
            min_size,
            get_compression(config, "response_compression"),
        ),
        alternator_driver_socket: None,
        alternator_adapter_image: None,
    }
}

/// The key and the secret that a client signs with, where both are given.
pub fn credentials(conf: &DynamoDbConf) -> (r: Option<(String, String)>)
    ensures
        match (conf.access_key_id, conf.secret_access_key) {
            (Some(key), Some(secret)) => r matches Some((k, s)) && k@ == key@ && s@ == secret@,
            _ => r is None,
        },
{
    match (&conf.access_key_id, &conf.secret_access_key) {
        (Some(key), Some(secret)) => Some((key.clone(), secret.clone())),
        _ => None,
    }
}

/// What is known of a client besides its connections.
#[derive(Debug)]
pub struct DynamoClient {
    endpoint: Option<String>,
    region: String,
    alternator: bool,
    compression: RequestCompressionConfig,
}

impl DynamoClient {
    /// The endpoint.
    pub closed spec fn url(self) -> Option<Seq<char>> {
        opt_text(self.endpoint)
    }

    /// The region.
    pub closed spec fn home(self) -> Seq<char> {
        self.region@
    }

    /// The client has an endpoint of its own.
    pub closed spec fn on_alternator(self) -> bool {
        self.alternator
    }

    /// How requests are compressed.
    pub closed spec fn compresses(self) -> RequestCompressionConfig {
        self.compression
    }

    /// The client that a configuration asks for. One with an endpoint of its own speaks to Alternator.
    pub fn from_config(conf: &DynamoDbConf) -> (client: DynamoClient)
        ensures
            client.url() == opt_text(conf.endpoint),
            client.home() == conf.region@,
            client.on_alternator() == (conf.endpoint is Some),
            client.compresses().algorithm_of() == conf.compression.request.algorithm,
            client.compresses().threshold() == conf.compression.request.min_size,
    {
        DynamoClient {
            endpoint: copy_opt(&conf.endpoint),
            region: conf.region.clone(),
            alternator: conf.endpoint.is_some(),
            compression: RequestCompressionConfig::from(conf.compression.request),
        }
    }

    /// Whether the client speaks to Alternator.
    pub fn is_alternator(&self) -> (r: bool)
        ensures
            r == self.on_alternator(),
    {
        self.alternator
    }

    /// How requests are compressed.
    pub fn request_compression(&self) -> (c: &RequestCompressionConfig)
        ensures
            *c == self.compresses(),
    {
        &self.compression
    }

    /// Whether requests are compressed.
    pub fn is_request_compression_enabled(&self) -> (r: bool)
        ensures
            r == (self.compresses().algorithm_of() != DynamoDbCompression::Off),
    {
        self.compression.is_enabled()
    }

    /// Refuses a transaction on Alternator, which has none.
    pub fn check_transaction(&self, operation: &str) -> (r: Result<(), DynamoError>)
        ensures
            if self.on_alternator() {
                r matches Err(e) && e.is(
                    DynamoErrorKind::AlternatorUnsupported,
                    "Operation '"@ + operation@ + "' is not supported by ScyllaDB Alternator"@,
                )
            } else {
                r is Ok
            },
    {
        if self.alternator {
            return Err(DynamoError::alternator_unsupported(operation));
        }
        Ok(())
    }
}

/// The state of a table.
#[derive(Debug, Clone, Copy, PartialEq, Eq, Structural)]
pub enum TableStatus {
    Active,
    /// Any other state.
    Other,
}

/// What is known of a table.
#[derive(Debug)]
pub struct TableDescription {
    pub table_name: Option<String>,
    pub table_status: Option<TableStatus>,
    pub item_count: Option<i64>,
    pub table_size_bytes: Option<i64>,
}

/// How long to wait before a table is looked at for the first time again, in milliseconds.
pub const INITIAL_DELAY_MS: u64 = 50;

/// The longest wait before a table is looked at again, in milliseconds.
pub const MAX_DELAY_MS: u64 = 500;

/// The wait that is followed by the longest one, in milliseconds.
pub const LAST_SHORT_DELAY_MS: u64 = 200;

/// The wait after a wait: 50, 100 and 200 milliseconds, and then the longest.
pub open spec fn next_delay(delay: u64) -> u64 {
    if delay < LAST_SHORT_DELAY_MS {
        (delay * 2) as u64
    } else {
        MAX_DELAY_MS
    }
}

/// The `n`-th wait for a table, counted from zero.
pub open spec fn nth_delay(n: nat) -> u64
    decreases n,
{
    if n == 0 {
        INITIAL_DELAY_MS
    } else {
        next_delay(nth_delay((n - 1) as nat))
    }
}

/// What is done after a table was looked at.
#[derive(Debug)]
pub enum TableWait {
    /// The table can be used.
    Active,
    /// The table is not there.
    Missing(DynamoError),
    /// The table is looked at again after this many milliseconds; the wait after that is the second number.
    Wait(u64, u64),
}

/// Decides what is done after a table was looked at.
pub fn wait_table_active(
    table_name: &str,
    description: Option<&TableDescription>,
    delay_ms: u64,
) -> (next: TableWait)
    ensures
        match description {
            None => next matches TableWait::Missing(e) && e.is(
                DynamoErrorKind::ResourceNotFound,
                "Table not found: "@ + table_name@,
            ),
            Some(d) => if d.table_status == Some(TableStatus::Active) {
                next is Active
            } else {
                next matches TableWait::Wait(now, then) && now == delay_ms && then == next_delay(
                    delay_ms,
                )
            },
        },
{
    match description {
        None => TableWait::Missing(
            DynamoError::resource_not_found(both("Table not found: ", table_name)),
        ),
        Some(d) => {
            if let Some(TableStatus::Active) = d.table_status {
                return TableWait::Active;
            }
            TableWait::Wait(
                delay_ms,
                if delay_ms < LAST_SHORT_DELAY_MS {
                    delay_ms * 2
                } else {
                    MAX_DELAY_MS
                },
            )
        },
    }
}

/// The waits are 50, 100 and 200 milliseconds, and from then on 500.
pub proof fn law_waits_are_capped(n: nat)
    ensures
        nth_delay(0) == 50,
        nth_delay(1) == 100,
        nth_delay(2) == 200,
        n >= 3 ==> nth_delay(n) == 500,
    decreases n,
{
    reveal_with_fuel(nth_delay, 4);
    if n > 3 {
        law_waits_are_capped((n - 1) as nat);
    }
}

/// Which capacity was not given, though the other one was.
#[derive(Debug, Clone, Copy, PartialEq, Eq, Structural)]
pub enum MissingCapacity {
    Read,
    Write,
}

/// The capacity that a table is changed to: none where none is given, and
/// both numbers where one is given.
pub fn new_throughput(read_capacity: Option<i64>, write_capacity: Option<i64>) -> (r: Result<
    Option<ProvisionedThroughput>,
    MissingCapacity,
>)
    ensures
        match (read_capacity, write_capacity) {
            (None, None) => r matches Ok(None),
            (Some(read), Some(write)) => r matches Ok(Some(t)) && t == (ProvisionedThroughput {
                read_capacity_units: read,
                write_capacity_units: write,
            }),
            (None, Some(_)) => r matches Err(e) && e == MissingCapacity::Read,
            (Some(_), None) => r matches Err(e) && e == MissingCapacity::Write,
        },
{
    match (read_capacity, write_capacity) {
        (None, None) => Ok(None),
        (Some(read), Some(write)) => Ok(
            Some(ProvisionedThroughput { read_capacity_units: read, write_capacity_units: write }),
        ),
        (None, Some(_)) => Err(MissingCapacity::Read),
        (Some(_), None) => Err(MissingCapacity::Write),
    }
}

} // verus!
