//! How a session is set up: the parameters of a CREATE_SESSION request over
//! the adapter's own configuration.

use super::config::DriverConfig;
use crate::number::{parse_u64, parse_usize, unsigned_of};
use crate::string_map::StringMap;
use crate::text::{
    copy_texts, eq_ignore_case, opt_text, parts, same_ignoring_case, same_text, split_list,
    texts,
};
use crate::value::{Consistency, SerialConsistency};
use vstd::prelude::*;
use vstd::string::*;

verus! {

/// Why a session cannot be set up.
#[derive(Debug, Clone, Copy, PartialEq, Eq, Structural)]
pub enum PlanError {
    /// The contact_points parameter lists no contact point.
    EmptyContactPoints,
    /// There is no contact point at all.
    NoContactPoints,
    /// A rack was given without a datacenter.
    RackWithoutDatacenter,
}

impl PlanError {
    /// What is said of the error.
    pub open spec fn text(self) -> Seq<char> {
        match self {
            PlanError::EmptyContactPoints => "contact_points override produced an empty list"@,
            PlanError::NoContactPoints => "contact points are required to create a session"@,
            PlanError::RackWithoutDatacenter =>
                "rack parameter requires datacenter to be specified"@,
        }
    }

    /// What is said of the error.
    pub fn message(self) -> (r: &'static str)
        ensures
            r@ == self.text(),
    {
        match self {
            PlanError::EmptyContactPoints => "contact_points override produced an empty list",
            PlanError::NoContactPoints => "contact points are required to create a session",
            PlanError::RackWithoutDatacenter =>
                "rack parameter requires datacenter to be specified",
        }
    }
}

/// The settings of a session.
#[derive(Debug)]
pub struct SessionPlan {
    pub contact_points: Vec<String>,
    pub keyspace: Option<String>,
    /// A user name and a password.
    pub credentials: Option<(String, String)>,
    pub connections_per_shard: Option<usize>,
    pub datacenter: Option<String>,
    pub rack: Option<String>,
    pub request_timeout_ms: Option<u64>,
    pub consistency: Option<Consistency>,
    pub serial_consistency: Option<SerialConsistency>,
}

impl SessionPlan {
    /// Some setting calls for an execution profile of its own.
    pub open spec fn custom_profile(self) -> bool {
        self.datacenter is Some || self.request_timeout_ms is Some || self.consistency is Some
            || self.serial_consistency is Some
    }

    /// Whether some setting calls for an execution profile of its own.
    pub fn needs_profile(&self) -> (r: bool)
        ensures
            r == self.custom_profile(),
    {
        self.datacenter.is_some() || self.request_timeout_ms.is_some()
            || self.consistency.is_some() || self.serial_consistency.is_some()
    }
}

/// Splits a list of contact points at its commas.
pub fn parse_contact_points(raw: &str) -> (r: Result<Vec<String>, PlanError>)
    ensures
        if parts(raw@).len() == 0 {
            r == Err::<Vec<String>, PlanError>(PlanError::EmptyContactPoints)
        } else {
            r is Ok && texts(r->Ok_0@) == parts(raw@)
        },
{
    let points: Vec<String> = split_list(raw);
    if points.len() == 0 {
        return Err(PlanError::EmptyContactPoints);
    }
    Ok(points)
}

/// The consistency level that a text names, whatever the case of its letters.
pub open spec fn consistency_of(s: Seq<char>) -> Option<Consistency> {
    if same_ignoring_case(s, "ANY"@) {
        Some(Consistency::Any)
    } else if same_ignoring_case(s, "ONE"@) || s == "1"@ {
        Some(Consistency::One)
    } else if same_ignoring_case(s, "TWO"@) || s == "2"@ {
        Some(Consistency::Two)
    } else if same_ignoring_case(s, "THREE"@) || s == "3"@ {
        Some(Consistency::Three)
    } else if same_ignoring_case(s, "QUORUM"@) {
        Some(Consistency::Quorum)
    } else if same_ignoring_case(s, "ALL"@) {
        Some(Consistency::All)
    } else if same_ignoring_case(s, "LOCAL_ONE"@) || same_ignoring_case(s, "LOCALONE"@) {
        Some(Consistency::LocalOne)
    } else if same_ignoring_case(s, "LOCAL_QUORUM"@) || same_ignoring_case(s, "LOCALQUORUM"@) {
        Some(Consistency::LocalQuorum)
    } else if same_ignoring_case(s, "EACH_QUORUM"@) || same_ignoring_case(s, "EACHQUORUM"@) {
        Some(Consistency::EachQuorum)
    } else if same_ignoring_case(s, "SERIAL"@) {
        Some(Consistency::Serial)
    } else if same_ignoring_case(s, "LOCAL_SERIAL"@) || same_ignoring_case(s, "LOCALSERIAL"@) {
        Some(Consistency::LocalSerial)
    } else {
        None
    }
}

/// Parses a consistency level; nothing for an unknown one.
pub fn parse_consistency(s: &str) -> (r: Option<Consistency>)
    ensures
        r == consistency_of(s@),
{
    if eq_ignore_case(s, "ANY") {
        Some(Consistency::Any)
    } else if eq_ignore_case(s, "ONE") || same_text(s, "1") {
        Some(Consistency::One)
    } else if eq_ignore_case(s, "TWO") || same_text(s, "2") {
        Some(Consistency::Two)
    } else if eq_ignore_case(s, "THREE") || same_text(s, "3") {
        Some(Consistency::Three)
    } else if eq_ignore_case(s, "QUORUM") {
        Some(Consistency::Quorum)
    } else if eq_ignore_case(s, "ALL") {
        Some(Consistency::All)
    } else if eq_ignore_case(s, "LOCAL_ONE") || eq_ignore_case(s, "LOCALONE") {
        Some(Consistency::LocalOne)
    } else if eq_ignore_case(s, "LOCAL_QUORUM") || eq_ignore_case(s, "LOCALQUORUM") {
        Some(Consistency::LocalQuorum)
    } else if eq_ignore_case(s, "EACH_QUORUM") || eq_ignore_case(s, "EACHQUORUM") {
        Some(Consistency::EachQuorum)
    } else if eq_ignore_case(s, "SERIAL") {
        Some(Consistency::Serial)
    } else if eq_ignore_case(s, "LOCAL_SERIAL") || eq_ignore_case(s, "LOCALSERIAL") {
        Some(Consistency::LocalSerial)
    } else {
        None
    }
}

/// The serial consistency level that a text names.
pub open spec fn serial_consistency_of(s: Seq<char>) -> Option<SerialConsistency> {
    if same_ignoring_case(s, "SERIAL"@) {
        Some(SerialConsistency::Serial)
    } else if same_ignoring_case(s, "LOCAL_SERIAL"@) || same_ignoring_case(s, "LOCALSERIAL"@) {
        Some(SerialConsistency::LocalSerial)
    } else {
        None
    }
}

/// Parses a serial consistency level; nothing for an unknown one.
pub fn parse_serial_consistency(s: &str) -> (r: Option<SerialConsistency>)
    ensures
        r == serial_consistency_of(s@),
{
    if eq_ignore_case(s, "SERIAL") {
        Some(SerialConsistency::Serial)
    } else if eq_ignore_case(s, "LOCAL_SERIAL") || eq_ignore_case(s, "LOCALSERIAL") {
        Some(SerialConsistency::LocalSerial)
    } else {
        None
    }
}

/// The value of a parameter, if it is there.
pub open spec fn param(params: Map<Seq<char>, Seq<char>>, key: Seq<char>) -> Option<Seq<char>> {
    if params.dom().contains(key) {
        Some(params[key])
    } else {
        None
    }
}

/// A copy of the value of a parameter.
fn get_param(params: &StringMap, key: &str) -> (r: Option<String>)
    ensures
        opt_text(r) == param(params@, key@),
{
    match params.get(key) {
        Some(v) => Some(v.clone()),
        None => None,
    }
}

/// The contact points: those of the parameters, or else those of the configuration.
pub open spec fn points_of(
    config: DriverConfig,
    params: Map<Seq<char>, Seq<char>>,
) -> Result<Seq<Seq<char>>, PlanError> {
    match param(params, "contact_points"@) {
        Some(raw) => if parts(raw).len() == 0 {
            Err(PlanError::EmptyContactPoints)
        } else {
            Ok(parts(raw))
        },
        None => if config.contact_points@.len() == 0 {
            Err(PlanError::NoContactPoints)
        } else {
            Ok(texts(config.contact_points@))
        },
    }
}

/// The number of connections: a positive number, or nothing.
pub open spec fn connections_of(params: Map<Seq<char>, Seq<char>>) -> Option<int> {
    match param(params, "connections_per_shard"@) {
        Some(text) => match unsigned_of(text, usize::MAX as int) {
            Some(n) => if n > 0 {
                Some(n)
            } else {
                None
            },
            None => None,
        },
        None => None,
    }
}

/// The request timeout, where it is a number.
pub open spec fn timeout_of(params: Map<Seq<char>, Seq<char>>) -> Option<int> {
    match param(params, "request_timeout_ms"@) {
        Some(text) => unsigned_of(text, u64::MAX as int),
        None => None,
    }
}

/// An optional number.
pub open spec fn opt_int(n: Option<u64>) -> Option<int> {
    match n {
        Some(n) => Some(n as int),
        None => None,
    }
}

/// An optional number of the machine's word size.
pub open spec fn opt_size(n: Option<usize>) -> Option<int> {
    match n {
        Some(n) => Some(n as int),
        None => None,
    }
}

/// The user name and the password, where both are given.
pub open spec fn credentials_of(params: Map<Seq<char>, Seq<char>>) -> Option<
    (Seq<char>, Seq<char>),
> {
    match (param(params, "username"@), param(params, "password"@)) {
        (Some(user), Some(password)) => Some((user, password)),
        _ => None,
    }
}

/// A plan has the settings that the parameters ask for.
pub open spec fn is_plan(
    plan: SessionPlan,
    config: DriverConfig,
    params: Map<Seq<char>, Seq<char>>,
) -> bool {
    &&& points_of(config, params) == Ok::<Seq<Seq<char>>, PlanError>(texts(plan.contact_points@))
    &&& opt_text(plan.keyspace) == (match param(params, "keyspace"@) {
        Some(keyspace) => Some(keyspace),
        None => opt_text(config.keyspace),
    })
    &&& match plan.credentials {
        Some((user, password)) => credentials_of(params) == Some((user@, password@)),
        None => credentials_of(params) is None,
    }
    &&& opt_size(plan.connections_per_shard) == connections_of(params)
    &&& opt_text(plan.datacenter) == param(params, "datacenter"@)
    &&& opt_text(plan.rack) == param(params, "rack"@)
    &&& opt_int(plan.request_timeout_ms) == timeout_of(params)
    &&& plan.consistency == (match param(params, "consistency"@) {
        Some(text) => consistency_of(text),
        None => None,
    })
    &&& plan.serial_consistency == (match param(params, "serial_consistency"@) {
        Some(text) => serial_consistency_of(text),
        None => None,
    })
}

/// Why the parameters give no plan, if they give none.
pub open spec fn plan_error(
    config: DriverConfig,
    params: Map<Seq<char>, Seq<char>>,
) -> Option<PlanError> {
    match points_of(config, params) {
        Err(e) => Some(e),
        Ok(_) => if param(params, "rack"@) is Some && param(params, "datacenter"@) is None {
            Some(PlanError::RackWithoutDatacenter)
        } else {
            None
        },
    }
}

/// The contact points of a session.
fn plan_points(config: &DriverConfig, params: &StringMap) -> (r: Result<Vec<String>, PlanError>)
    ensures
        match points_of(*config, params@) {
            Ok(points) => r is Ok && texts(r->Ok_0@) == points,
            Err(e) => r == Err::<Vec<String>, PlanError>(e),
        },
{
    match params.get("contact_points") {
        Some(raw) => parse_contact_points(raw.as_str()),
        None => if config.contact_points.len() == 0 {
            Err(PlanError::NoContactPoints)
        } else {
            Ok(copy_texts(&config.contact_points))
        },
    }
}

/// Decides how a session is set up. A parameter that cannot be read is ignored.
pub fn plan_session(config: &DriverConfig, params: &StringMap) -> (r: Result<
    SessionPlan,
    PlanError,
>)
    ensures
        match plan_error(*config, params@) {
            Some(e) => r == Err::<SessionPlan, PlanError>(e),
            None => r is Ok && is_plan(r->Ok_0, *config, params@),
        },
{
    let contact_points: Vec<String> = match plan_points(config, params) {
        Ok(points) => points,
        Err(e) => {
            return Err(e);
        },
    };
    let keyspace: Option<String> = match get_param(params, "keyspace") {
        Some(keyspace) => Some(keyspace),
        None => match &config.keyspace {
            Some(keyspace) => Some(keyspace.clone()),
            None => None,
        },
    };
    let credentials: Option<(String, String)> = match (
        get_param(params, "username"),
        get_param(params, "password"),
    ) {
        (Some(user), Some(password)) => Some((user, password)),
        _ => None,
    };
    let connections_per_shard: Option<usize> = match params.get("connections_per_shard") {
        Some(text) => match parse_usize(text.as_str()) {
            Some(n) => if n > 0 {
                Some(n)
            } else {
                None
            },
            None => None,
        },
        None => None,
    };
    let datacenter: Option<String> = get_param(params, "datacenter");
    let rack: Option<String> = get_param(params, "rack");
    let request_timeout_ms: Option<u64> = match params.get("request_timeout_ms") {
        Some(text) => parse_u64(text.as_str()),
        None => None,
    };
    let consistency: Option<Consistency> = match params.get("consistency") {
        Some(text) => parse_consistency(text.as_str()),
        None => None,
    };
    let serial_consistency: Option<SerialConsistency> = match params.get("serial_consistency") {
        Some(text) => parse_serial_consistency(text.as_str()),
        None => None,
    };
    if rack.is_some() && datacenter.is_none() {
        return Err(PlanError::RackWithoutDatacenter);
    }
    Ok(
        SessionPlan {
            contact_points,
            keyspace,
            credentials,
            connections_per_shard,
            datacenter,
            rack,
            request_timeout_ms,
            consistency,
            serial_consistency,
        },
    )
}

} // verus!
