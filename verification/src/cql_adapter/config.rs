//! The configuration of the adapter's server.

use crate::driver_adapter::config::{
    inflight_of, parent_of, parent_path, parse_inflight, setting, setting_or, ConfigError,
};
use vstd::prelude::*;
use vstd::string::*;

verus! {

/// Where the server connects to, and how many requests it works on at a time.
#[derive(Debug)]
pub struct DriverConfig {
    pub socket_path: String,
    pub inflight_limit: usize,
}

impl DriverConfig {
    /// The configuration that the settings of the environment give:
    /// LATTE_DRIVER_SOCKET and LATTE_DRIVER_INFLIGHT.
    pub fn from_settings(socket: Option<String>, inflight: Option<String>) -> (r: Result<
        DriverConfig,
        ConfigError,
    >)
        ensures
            match inflight_of(inflight) {
                None => r == Err::<DriverConfig, ConfigError>(ConfigError::InflightLimit),
                Some(limit) => r matches Ok(config) && config.socket_path@ == setting(
                    socket,
                    "/tmp/latte-driver.sock"@,
                ) && config.inflight_limit == limit,
            },
    {
        let socket_path: String = setting_or(socket, "/tmp/latte-driver.sock");
        match parse_inflight(inflight) {
            Some(inflight_limit) => Ok(DriverConfig { socket_path, inflight_limit }),
            None => Err(ConfigError::InflightLimit),
        }
    }

    /// The directory of the socket.
    pub fn socket_parent(&self) -> (r: Option<String>)
        ensures
            match r {
                Some(parent) => parent_of(self.socket_path@) == Some(parent@),
                None => parent_of(self.socket_path@) is None,
            },
    {
        parent_path(self.socket_path.as_str())
    }

    /// How many responses may wait for the writer.
    pub fn response_queue(&self) -> (n: usize)
        ensures
            n == (if self.inflight_limit > 64 {
                self.inflight_limit
            } else {
                64
            }),
    {
        if self.inflight_limit > 64 {
            self.inflight_limit
        } else {
            64
        }
    }
}

} // verus!
