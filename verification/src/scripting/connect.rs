//! How a connection is configured: directly, or through a driver adapter.

use crate::driver_adapter::plan::{consistency_of, serial_consistency_of};
use crate::ipc::docker::DockerConfig;
use crate::ipc::types::SessionConfig;
use crate::text::{ascii_lower, join, join_texts, opt_text, same_ignoring_case, texts};
use crate::value::{Consistency, SerialConsistency};
use crate::wire::low_u32;
use vstd::prelude::*;
use vstd::string::*;

verus! {

/// How to connect to a cluster.
#[derive(Debug)]
pub struct ConnectionConf {
    pub addresses: Vec<String>,
    /// The number of connections per shard.
    pub count: usize,
    pub request_timeout_ms: u128,
    pub consistency: Consistency,
    pub serial_consistency: SerialConsistency,
    pub user: String,
    pub password: String,
    pub datacenter: Option<String>,
    pub rack: Option<String>,
    pub ssl: bool,
    pub ssl_peer_verification: bool,
    pub ssl_ca_cert_file: Option<String>,
    pub ssl_cert_file: Option<String>,
    pub ssl_key_file: Option<String>,
}

/// What is known of a cluster.
#[derive(Debug)]
pub struct ClusterInfo {
    pub name: String,
    pub db_version: String,
}

/// Which nodes a connection prefers. It always falls back on other datacenters.
#[derive(Debug)]
pub enum Preference {
    Any,
    Datacenter(String),
    DatacenterAndRack(String, String),
}

/// Which nodes a direct connection prefers. A rack is only named with its datacenter.
pub fn preference(conf: &ConnectionConf) -> (p: Preference)
    requires
        conf.rack is Some ==> conf.datacenter is Some,
    ensures
        match (conf.datacenter, conf.rack) {
            (Some(dc), Some(rack)) => p matches Preference::DatacenterAndRack(d, r) && d@ == dc@
                && r@ == rack@,
            (Some(dc), None) => p matches Preference::Datacenter(d) && d@ == dc@,
            _ => p is Any,
        },
{
    match (&conf.datacenter, &conf.rack) {
        (Some(dc), Some(rack)) => Preference::DatacenterAndRack(dc.clone(), rack.clone()),
        (Some(dc), None) => Preference::Datacenter(dc.clone()),
        _ => Preference::Any,
    }
}

/// The text of an optional setting, or nothing.
pub open spec fn text_or_empty(s: Option<String>) -> Seq<char> {
    match s {
        Some(t) => t@,
        None => Seq::empty(),
    }
}

/// The datacenter and the rack that the context of a script shows; empty where there is none.
pub fn location(conf: &ConnectionConf) -> (r: (String, String))
    ensures
        r.0@ == text_or_empty(conf.datacenter),
        r.1@ == text_or_empty(conf.rack),
{
    (or_empty(&conf.datacenter), or_empty(&conf.rack))
}

/// A copy of an optional setting, or an empty text.
fn or_empty(s: &Option<String>) -> (r: String)
    ensures
        r@ == text_or_empty(*s),
{
    match s {
        Some(t) => t.clone(),
        None => {
            proof {
                reveal_strlit("");
            }
            assert(""@ =~= Seq::<char>::empty());
            "".to_owned()
        },
    }
}

/// A copy of an optional setting.
fn copy_text(s: &Option<String>) -> (r: Option<String>)
    ensures
        opt_text(r) == opt_text(*s),
{
    match s {
        Some(t) => Some(t.clone()),
        None => None,
    }
}

/// The lowest 64 bits of a number.
pub open spec fn low64(n: u128) -> u64 {
    (n % 0x1_0000_0000_0000_0000) as u64
}

/// A setting that is only made where TLS is on.
pub open spec fn if_ssl(conf: ConnectionConf, s: Option<String>) -> Option<Seq<char>> {
    if conf.ssl {
        opt_text(s)
    } else {
        None
    }
}

/// A session is configured as a connection asks for.
pub open spec fn configures(session: SessionConfig, conf: ConnectionConf) -> bool {
    &&& opt_text(session.contact_points) == Some(join(texts(conf.addresses@), ","@))
    &&& session.keyspace is None
    &&& opt_text(session.username) == (if conf.user@.len() == 0 {
        None
    } else {
        Some(conf.user@)
    })
    &&& opt_text(session.password) == (if conf.user@.len() == 0 {
        None
    } else {
        Some(conf.password@)
    })
    &&& session.connections_per_shard == Some((conf.count as int % 0x1_0000_0000) as u32)
    &&& opt_text(session.datacenter) == opt_text(conf.datacenter)
    &&& opt_text(session.rack) == opt_text(conf.rack)
    &&& session.request_timeout_ms == Some(low64(conf.request_timeout_ms))
    &&& session.connect_timeout_ms is None
    &&& opt_text(session.consistency) == Some(conf.consistency.label())
    &&& opt_text(session.serial_consistency) == Some(conf.serial_consistency.label())
    &&& session.default_page_size is None
    &&& session.ssl_enabled == (if conf.ssl {
        Some(true)
    } else {
        None
    })
    &&& session.ssl_verify_peer == (if conf.ssl {
        Some(conf.ssl_peer_verification)
    } else {
        None
    })
    &&& opt_text(session.ssl_ca_cert) == if_ssl(conf, conf.ssl_ca_cert_file)
    &&& opt_text(session.ssl_cert) == if_ssl(conf, conf.ssl_cert_file)
    &&& opt_text(session.ssl_key) == if_ssl(conf, conf.ssl_key_file)
    &&& session.extra@ == Map::<Seq<char>, Seq<char>>::empty()
}

/// The session that a connection through a driver adapter asks for.
pub fn ipc_session_config(conf: &ConnectionConf) -> (session: SessionConfig)
    ensures
        configures(session, *conf),
{
    let timeout: u64 = (conf.request_timeout_ms % 0x1_0000_0000_0000_0000) as u64;
    let mut session: SessionConfig = SessionConfig::new().contact_points(
        join_texts(&conf.addresses, ","),
    ).connections_per_shard(low_u32(conf.count)).request_timeout_ms(
        timeout,
    ).consistency(conf.consistency.name().to_owned()).serial_consistency(
        conf.serial_consistency.name().to_owned(),
    );
    if conf.user.as_str().unicode_len() > 0 {
        session = session.credentials(conf.user.clone(), conf.password.clone());
    }
    if let Some(dc) = &conf.datacenter {
        session = session.datacenter(dc.clone());
    }
    if let Some(rack) = &conf.rack {
        session = session.rack(rack.clone());
    }
    if conf.ssl {
        session = session.ssl_enabled(true).ssl_verify_peer(conf.ssl_peer_verification);
        session.ssl_ca_cert = copy_text(&conf.ssl_ca_cert_file);
        session.ssl_cert = copy_text(&conf.ssl_cert_file);
        session.ssl_key = copy_text(&conf.ssl_key_file);
    }
    session
}

/// The container that a driver image is started in.
pub fn driver_container(image: &str, socket_path: &str) -> (config: DockerConfig)
    ensures
        config.image@ == image@,
        config.socket_path@ == socket_path@,
        config.container_name is None,
        config.socket_env_name@ == "LATTE_DRIVER_SOCKET"@,
        config.extra_envs@.len() == 0,
{
    let mut config: DockerConfig = DockerConfig::default();
    config.image = image.to_owned();
    config.socket_path = socket_path.to_owned();
    config
}

/// Texts with different letters at some place differ.
proof fn lemma_differ(a: Seq<char>, b: Seq<char>, i: int)
    requires
        0 <= i < a.len(),
        ascii_lower(a[i]) != ascii_lower(b[i]),
    ensures
        !same_ignoring_case(a, b),
{
}

/// The adapter understands the name of every consistency level that a client sends.
pub proof fn law_consistency_names(level: Consistency, serial: SerialConsistency)
    ensures
        consistency_of(level.label()) == Some(level),
        serial_consistency_of(serial.label()) == Some(serial),
{
    reveal_strlit("ANY");
    reveal_strlit("ONE");
    reveal_strlit("TWO");
    reveal_strlit("THREE");
    reveal_strlit("QUORUM");
    reveal_strlit("ALL");
    reveal_strlit("LOCAL_ONE");
    reveal_strlit("LOCALONE");
    reveal_strlit("LOCAL_QUORUM");
    reveal_strlit("LOCALQUORUM");
    reveal_strlit("EACH_QUORUM");
    reveal_strlit("EACHQUORUM");
    reveal_strlit("SERIAL");
    reveal_strlit("LOCAL_SERIAL");
    reveal_strlit("LOCALSERIAL");
    reveal_strlit("1");
    reveal_strlit("2");
    reveal_strlit("3");
    reveal_strlit("Any");
    reveal_strlit("One");
    reveal_strlit("Two");
    reveal_strlit("Three");
    reveal_strlit("Quorum");
    reveal_strlit("All");
    reveal_strlit("LocalOne");
    reveal_strlit("LocalQuorum");
    reveal_strlit("EachQuorum");
    reveal_strlit("Serial");
    reveal_strlit("LocalSerial");
    lemma_differ("One"@, "ANY"@, 0);
    lemma_differ("Two"@, "ANY"@, 0);
    lemma_differ("Two"@, "ONE"@, 0);
    lemma_differ("All"@, "ANY"@, 1);
    lemma_differ("All"@, "ONE"@, 0);
    lemma_differ("All"@, "TWO"@, 0);
    lemma_differ("Serial"@, "QUORUM"@, 0);
    lemma_differ("LocalSerial"@, "LOCALQUORUM"@, 5);
    lemma_differ("LocalSerial"@, "EACH_QUORUM"@, 0);
}

} // verus!
