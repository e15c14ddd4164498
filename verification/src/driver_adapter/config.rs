//! The configuration of the driver adapter.

use crate::number::{parse_usize, unsigned_of};
use crate::text::{parts, split_list, texts};
use vstd::prelude::*;
use vstd::string::*;

verus! {

/// Where the adapter connects to, and how many requests it works on at a time.
#[derive(Debug)]
pub struct DriverConfig {
    pub socket_path: String,
    pub contact_points: Vec<String>,
    pub keyspace: Option<String>,
    pub inflight_limit: usize,
}

/// Why the settings give no configuration.
#[derive(Debug, Clone, Copy, PartialEq, Eq, Structural)]
pub enum ConfigError {
    /// LATTE_DRIVER_CONTACT_POINTS lists no contact point.
    NoContactPoints,
    /// LATTE_DRIVER_INFLIGHT is no number.
    InflightLimit,
}

/// The text of a setting, or a default.
pub open spec fn setting(value: Option<String>, default: Seq<char>) -> Seq<char> {
    match value {
        Some(text) => text@,
        None => default,
    }
}

/// The number of requests to work on at a time.
pub open spec fn inflight_of(value: Option<String>) -> Option<int> {
    match value {
        Some(text) => unsigned_of(text@, usize::MAX as int),
        None => Some(512),
    }
}

/// Reads the number of requests to work on at a time.
pub fn parse_inflight(value: Option<String>) -> (r: Option<usize>)
    ensures
        match r {
            Some(n) => inflight_of(value) == Some(n as int),
            None => inflight_of(value) is None,
        },
{
    match value {
        Some(text) => parse_usize(text.as_str()),
        None => Some(512),
    }
}

/// The text of a setting, or a default.
pub fn setting_or(value: Option<String>, default: &str) -> (r: String)
    ensures
        r@ == setting(value, default@),
{
    match value {
        Some(text) => text,
        None => default.to_owned(),
    }
}

/// The directory that `std::path::Path::parent` gives for a path.
pub uninterp spec fn parent_of(path: Seq<char>) -> Option<Seq<char>>;

/// `std::path::Path::parent`: the path without its last component, if there is
/// one. For a Unix path this depends on the path alone and has a name.
#[verifier::external_body]
pub(crate) fn parent_path(path: &str) -> (r: Option<String>)
    ensures
        match r {
            Some(parent) => parent_of(path@) == Some(parent@),
            None => parent_of(path@) is None,
        },
{
    let parent = std::path::Path::new(path).parent();
    parent.map(|p| p.to_string_lossy().into_owned())
}

impl DriverConfig {
    /// The configuration that the settings of the environment give:
    /// LATTE_DRIVER_SOCKET, LATTE_DRIVER_CONTACT_POINTS, LATTE_DRIVER_KEYSPACE
    /// and LATTE_DRIVER_INFLIGHT.
    pub fn from_settings(
        socket: Option<String>,
        contact_points: Option<String>,
        keyspace: Option<String>,
        inflight: Option<String>,
    ) -> (r: Result<DriverConfig, ConfigError>)
        ensures
            ({
                let points = parts(setting(contact_points, "127.0.0.1"@));
                if points.len() == 0 {
                    r == Err::<DriverConfig, ConfigError>(ConfigError::NoContactPoints)
                } else {
                    match inflight_of(inflight) {
                        None => r == Err::<DriverConfig, ConfigError>(ConfigError::InflightLimit),
                        Some(limit) => r matches Ok(config) && config.socket_path@ == setting(
                            socket,
                            "/tmp/latte-driver.sock"@,
                        ) && texts(config.contact_points@) == points && config.keyspace == keyspace
                            && config.inflight_limit == limit,
                    }
                }
            }),
    {
        let socket_path: String = setting_or(socket, "/tmp/latte-driver.sock");
        let list: String = setting_or(contact_points, "127.0.0.1");
        let contact_points: Vec<String> = split_list(list.as_str());
        if contact_points.len() == 0 {
            return Err(ConfigError::NoContactPoints);
        }
        match parse_inflight(inflight) {
            Some(inflight_limit) => Ok(
                DriverConfig { socket_path, contact_points, keyspace, inflight_limit },
            ),
            None => Err(ConfigError::InflightLimit),
        }
    }

    /// The directory of the socket.
    pub fn socket_parent(&self) -> (r: Option<String>)
        ensures
            match r {
                Some(parent) => parent_of(self.socket_path@) == Some(parent@),
                None => parent_of(self.socket_path@) is None,
            },
    {
        parent_path(self.socket_path.as_str())
    }
}

} // verus!
