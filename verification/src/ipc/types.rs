//! What the IPC client exchanges with its callers.

use crate::number::{decimal, decimal_text};
use crate::string_map::StringMap;
use crate::text::opt_text;
use crate::value::{opt_vals, Consistency, CqlValue, Val};
use vstd::prelude::*;
use vstd::string::*;

verus! {

/// The id of a session; 0 stands for none.
pub type SessionId = u64;

/// What a session is created with. Each setting that is made becomes a
/// parameter of the request.
#[derive(Debug)]
pub struct SessionConfig {
    pub contact_points: Option<String>,
    pub keyspace: Option<String>,
    pub username: Option<String>,
    pub password: Option<String>,
    pub connections_per_shard: Option<u32>,
    pub datacenter: Option<String>,
    pub rack: Option<String>,
    pub request_timeout_ms: Option<u64>,
    pub connect_timeout_ms: Option<u64>,
    pub consistency: Option<String>,
    pub serial_consistency: Option<String>,
    pub default_page_size: Option<u32>,
    pub ssl_enabled: Option<bool>,
    pub ssl_ca_cert: Option<String>,
    pub ssl_cert: Option<String>,
    pub ssl_key: Option<String>,
    pub ssl_verify_peer: Option<bool>,
    /// Parameters that only some drivers know.
    pub extra: StringMap,
}

/// A map with one more setting, if it is made.
pub open spec fn with_setting(
    map: Map<Seq<char>, Seq<char>>,
    key: Seq<char>,
    value: Option<Seq<char>>,
) -> Map<Seq<char>, Seq<char>> {
    match value {
        Some(text) => map.insert(key, text),
        None => map,
    }
}

/// An optional number in decimal digits.
pub open spec fn opt_decimal(n: Option<u64>) -> Option<Seq<char>> {
    match n {
        Some(n) => Some(decimal(n as nat)),
        None => None,
    }
}

/// A number with more bits.
pub open spec fn widen(n: Option<u32>) -> Option<u64> {
    match n {
        Some(n) => Some(n as u64),
        None => None,
    }
}

/// An optional truth value as a word.
pub open spec fn opt_word(b: Option<bool>) -> Option<Seq<char>> {
    match b {
        Some(true) => Some("true"@),
        Some(false) => Some("false"@),
        None => None,
    }
}

/// Adds a setting, if it is made.
pub fn put_setting(map: &mut StringMap, key: &str, value: Option<String>)
    ensures
        final(map)@ == with_setting(old(map)@, key@, opt_text(value)),
{
    if let Some(text) = value {
        map.insert(key.to_owned(), text);
    }
}

/// Adds a number, if it is set.
pub fn put_number(map: &mut StringMap, key: &str, value: Option<u64>)
    ensures
        final(map)@ == with_setting(old(map)@, key@, opt_decimal(value)),
{
    if let Some(n) = value {
        map.insert(key.to_owned(), decimal_text(n));
    }
}

/// Adds a number of 32 bits, if it is set.
fn put_small(map: &mut StringMap, key: &str, value: Option<u32>)
    ensures
        final(map)@ == with_setting(old(map)@, key@, opt_decimal(widen(value))),
{
    match value {
        Some(n) => put_number(map, key, Some(n as u64)),
        None => {},
    }
}

/// Adds a truth value, if it is set.
fn put_word(map: &mut StringMap, key: &str, value: Option<bool>)
    ensures
        final(map)@ == with_setting(old(map)@, key@, opt_word(value)),
{
    if let Some(b) = value {
        let word: &str = if b {
            "true"
        } else {
            "false"
        };
        map.insert(key.to_owned(), word.to_owned());
    }
}

impl Default for SessionConfig {
    fn default() -> (config: SessionConfig)
        ensures
            config.is_empty(),
    {
        SessionConfig {
            contact_points: None,
            keyspace: None,
            username: None,
            password: None,
            connections_per_shard: None,
            datacenter: None,
            rack: None,
            request_timeout_ms: None,
            connect_timeout_ms: None,
            consistency: None,
            serial_consistency: None,
            default_page_size: None,
            ssl_enabled: None,
            ssl_ca_cert: None,
            ssl_cert: None,
            ssl_key: None,
            ssl_verify_peer: None,
            extra: StringMap::new(),
        }
    }
}

impl SessionConfig {
    /// No setting is made.
    pub open spec fn is_empty(self) -> bool {
        &&& self.contact_points is None
        &&& self.keyspace is None
        &&& self.username is None
        &&& self.password is None
        &&& self.connections_per_shard is None
        &&& self.datacenter is None
        &&& self.rack is None
        &&& self.request_timeout_ms is None
        &&& self.connect_timeout_ms is None
        &&& self.consistency is None
        &&& self.serial_consistency is None
        &&& self.default_page_size is None
        &&& self.ssl_enabled is None
        &&& self.ssl_ca_cert is None
        &&& self.ssl_cert is None
        &&& self.ssl_key is None
        &&& self.ssl_verify_peer is None
        &&& self.extra@ == Map::<Seq<char>, Seq<char>>::empty()
    }

    /// A configuration without settings.
    pub fn new() -> (config: SessionConfig)
        ensures
            config.is_empty(),
    {
        SessionConfig::default()
    }

    /// Sets the contact points, separated by commas.
    pub fn contact_points(self, points: String) -> (config: SessionConfig)
        ensures
            config == (SessionConfig { contact_points: Some(points), ..self }),
    {
        let mut config: SessionConfig = self;
        config.contact_points = Some(points);
        config
    }

    /// Sets the keyspace.
    pub fn keyspace(self, keyspace: String) -> (config: SessionConfig)
        ensures
            config == (SessionConfig { keyspace: Some(keyspace), ..self }),
    {
        let mut config: SessionConfig = self;
        config.keyspace = Some(keyspace);
        config
    }

    /// Sets the user name and the password.
    pub fn credentials(self, username: String, password: String) -> (config: SessionConfig)
        ensures
            config == (SessionConfig {
                username: Some(username),
                password: Some(password),
                ..self
            }),
    {
        let mut config: SessionConfig = self;
        config.username = Some(username);
        config.password = Some(password);
        config
    }

    /// Sets the number of connections per shard.
    pub fn connections_per_shard(self, count: u32) -> (config: SessionConfig)
        ensures
            config == (SessionConfig { connections_per_shard: Some(count), ..self }),
    {
        let mut config: SessionConfig = self;
        config.connections_per_shard = Some(count);
        config
    }

    /// Sets the datacenter that is preferred.
    pub fn datacenter(self, dc: String) -> (config: SessionConfig)
        ensures
            config == (SessionConfig { datacenter: Some(dc), ..self }),
    {
        let mut config: SessionConfig = self;
        config.datacenter = Some(dc);
        config
    }

    /// Sets the rack that is preferred.
    pub fn rack(self, rack: String) -> (config: SessionConfig)
        ensures
            config == (SessionConfig { rack: Some(rack), ..self }),
    {
        let mut config: SessionConfig = self;
        config.rack = Some(rack);
        config
    }

    /// Sets the timeout of a request in milliseconds.
    pub fn request_timeout_ms(self, timeout_ms: u64) -> (config: SessionConfig)
        ensures
            config == (SessionConfig { request_timeout_ms: Some(timeout_ms), ..self }),
    {
        let mut config: SessionConfig = self;
        config.request_timeout_ms = Some(timeout_ms);
        config
    }

    /// Sets the timeout of a connection attempt in milliseconds.
    pub fn connect_timeout_ms(self, timeout_ms: u64) -> (config: SessionConfig)
        ensures
            config == (SessionConfig { connect_timeout_ms: Some(timeout_ms), ..self }),
    {
        let mut config: SessionConfig = self;
        config.connect_timeout_ms = Some(timeout_ms);
        config
    }

    /// Sets the consistency level.
    pub fn consistency(self, consistency: String) -> (config: SessionConfig)
        ensures
            config == (SessionConfig { consistency: Some(consistency), ..self }),
    {
        let mut config: SessionConfig = self;
        config.consistency = Some(consistency);
        config
    }

    /// Sets the serial consistency level.
    pub fn serial_consistency(self, serial_consistency: String) -> (config: SessionConfig)
        ensures
            config == (SessionConfig { serial_consistency: Some(serial_consistency), ..self }),
    {
        let mut config: SessionConfig = self;
        config.serial_consistency = Some(serial_consistency);
        config
    }

    /// Sets the page size.
    pub fn default_page_size(self, page_size: u32) -> (config: SessionConfig)
        ensures
            config == (SessionConfig { default_page_size: Some(page_size), ..self }),
    {
        let mut config: SessionConfig = self;
        config.default_page_size = Some(page_size);
        config
    }

    /// Switches TLS on or off.
    pub fn ssl_enabled(self, enabled: bool) -> (config: SessionConfig)
        ensures
            config == (SessionConfig { ssl_enabled: Some(enabled), ..self }),
    {
        let mut config: SessionConfig = self;
        config.ssl_enabled = Some(enabled);
        config
    }

    /// Sets the certificate of the authority.
    pub fn ssl_ca_cert(self, cert: String) -> (config: SessionConfig)
        ensures
            config == (SessionConfig { ssl_ca_cert: Some(cert), ..self }),
    {
        let mut config: SessionConfig = self;
        config.ssl_ca_cert = Some(cert);
        config
    }

    /// Sets the certificate of the client.
    pub fn ssl_cert(self, cert: String) -> (config: SessionConfig)
        ensures
            config == (SessionConfig { ssl_cert: Some(cert), ..self }),
    {
        let mut config: SessionConfig = self;
        config.ssl_cert = Some(cert);
        config
    }

    /// Sets the key of the client.
    pub fn ssl_key(self, key: String) -> (config: SessionConfig)
        ensures
            config == (SessionConfig { ssl_key: Some(key), ..self }),
    {
        let mut config: SessionConfig = self;
        config.ssl_key = Some(key);
        config
    }

    /// Switches the verification of the peer on or off.
    pub fn ssl_verify_peer(self, verify: bool) -> (config: SessionConfig)
        ensures
            config == (SessionConfig { ssl_verify_peer: Some(verify), ..self }),
    {
        let mut config: SessionConfig = self;
        config.ssl_verify_peer = Some(verify);
        config
    }

    /// The parameters that the settings make, over the extra ones.
    pub open spec fn params(self) -> Map<Seq<char>, Seq<char>> {
        let m = self.extra@;
        let m = with_setting(m, "contact_points"@, opt_text(self.contact_points));
        let m = with_setting(m, "keyspace"@, opt_text(self.keyspace));
        let m = with_setting(m, "username"@, opt_text(self.username));
        let m = with_setting(m, "password"@, opt_text(self.password));
        let m = with_setting(m, "connections_per_shard"@, opt_decimal(widen(self.connections_per_shard)));
        let m = with_setting(m, "datacenter"@, opt_text(self.datacenter));
        let m = with_setting(m, "rack"@, opt_text(self.rack));
        let m = with_setting(m, "request_timeout_ms"@, opt_decimal(self.request_timeout_ms));
        let m = with_setting(m, "connect_timeout_ms"@, opt_decimal(self.connect_timeout_ms));
        let m = with_setting(m, "consistency"@, opt_text(self.consistency));
        let m = with_setting(m, "serial_consistency"@, opt_text(self.serial_consistency));
        let m = with_setting(m, "default_page_size"@, opt_decimal(widen(self.default_page_size)));
        let m = with_setting(m, "ssl_enabled"@, opt_word(self.ssl_enabled));
        let m = with_setting(m, "ssl_ca_cert"@, opt_text(self.ssl_ca_cert));
        let m = with_setting(m, "ssl_cert"@, opt_text(self.ssl_cert));
        let m = with_setting(m, "ssl_key"@, opt_text(self.ssl_key));
        let m = with_setting(m, "ssl_verify_peer"@, opt_word(self.ssl_verify_peer));
        m
    }

    /// The parameters that the settings make, over the extra ones.
    pub fn into_params(self) -> (map: StringMap)
        ensures
            map@ == self.params(),
    {
        let mut map: StringMap = self.extra;
        put_setting(&mut map, "contact_points", self.contact_points);
        put_setting(&mut map, "keyspace", self.keyspace);
        put_setting(&mut map, "username", self.username);
        put_setting(&mut map, "password", self.password);
        put_small(&mut map, "connections_per_shard", self.connections_per_shard);
        put_setting(&mut map, "datacenter", self.datacenter);
        put_setting(&mut map, "rack", self.rack);
        put_number(&mut map, "request_timeout_ms", self.request_timeout_ms);
        put_number(&mut map, "connect_timeout_ms", self.connect_timeout_ms);
        put_setting(&mut map, "consistency", self.consistency);
        put_setting(&mut map, "serial_consistency", self.serial_consistency);
        put_small(&mut map, "default_page_size", self.default_page_size);
        put_word(&mut map, "ssl_enabled", self.ssl_enabled);
        put_setting(&mut map, "ssl_ca_cert", self.ssl_ca_cert);
        put_setting(&mut map, "ssl_cert", self.ssl_cert);
        put_setting(&mut map, "ssl_key", self.ssl_key);
        put_word(&mut map, "ssl_verify_peer", self.ssl_verify_peer);
        map
    }
}

/// Information about a connected session.
#[derive(Debug, Clone)]
pub struct SessionInfo {
    pub id: SessionId,
    pub cluster_name: Option<String>,
    pub db_version: Option<String>,
}

/// Options for query execution.
#[derive(Debug, Clone)]
pub struct QueryOptions {
    pub consistency: Consistency,
    pub page_size: Option<i32>,
}

impl Default for QueryOptions {
    fn default() -> (options: QueryOptions)
        ensures
            options == (QueryOptions { consistency: Consistency::One, page_size: None }),
    {
        QueryOptions { consistency: Consistency::One, page_size: None }
    }
}

/// Column metadata.
#[derive(Debug, Clone)]
pub struct ColumnInfo {
    pub keyspace: String,
    pub table: String,
    pub name: String,
    pub type_code: u16,
}

/// The mathematical value of a [`ColumnInfo`].
pub struct Column {
    pub keyspace: Seq<char>,
    pub table: Seq<char>,
    pub name: Seq<char>,
    pub type_code: u16,
}

impl View for ColumnInfo {
    type V = Column;

    open spec fn view(&self) -> Column {
        Column {
            keyspace: self.keyspace@,
            table: self.table@,
            name: self.name@,
            type_code: self.type_code,
        }
    }
}

/// The values of a sequence of columns.
pub open spec fn columns_of(s: Seq<ColumnInfo>) -> Seq<Column> {
    s.map_values(|c: ColumnInfo| c@)
}

/// The values of a sequence of rows.
pub open spec fn rows_of(s: Seq<Vec<Option<CqlValue>>>) -> Seq<Seq<Option<Val>>> {
    s.map_values(|row: Vec<Option<CqlValue>>| opt_vals(row@))
}

/// Result of a query execution.
#[derive(Debug)]
pub enum QueryResult {
    /// No rows returned, as by an INSERT.
    Void,
    /// Rows returned with column metadata.
    Rows { columns: Vec<ColumnInfo>, rows: Vec<Vec<Option<CqlValue>>> },
    /// Schema change result.
    SchemaChange { change_type: String },
}

/// The mathematical value of a [`QueryResult`].
pub enum Outcome {
    Void,
    Rows(Seq<Column>, Seq<Seq<Option<Val>>>),
    SchemaChange(Seq<char>),
}

impl View for QueryResult {
    type V = Outcome;

    open spec fn view(&self) -> Outcome {
        match self {
            QueryResult::Void => Outcome::Void,
            QueryResult::Rows { columns, rows } => Outcome::Rows(
                columns_of(columns@),
                rows_of(rows@),
            ),
            QueryResult::SchemaChange { change_type } => Outcome::SchemaChange(change_type@),
        }
    }
}

} // verus!
