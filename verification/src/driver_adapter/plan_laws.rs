//! How the settings of a session reach the adapter.

use super::config::DriverConfig;
use super::driver_integration::DriverSessionBuilder;
use super::plan::{
    consistency_of, is_plan, param, plan_error, points_of, serial_consistency_of, PlanError,
    SessionPlan,
};
use crate::ipc::types::{opt_decimal, opt_word, widen, with_setting, SessionConfig};
use crate::number::{decimal, is_digit, law_decimal_spells_number, unsigned_of};
use crate::scripting::connect::{configures, law_consistency_names, ConnectionConf};
use crate::text::{law_joined_parts_are_found, opt_text, parts, separable, texts};
use vstd::prelude::*;

verus! {

/// Settings, by their names.
pub type Settings = Map<Seq<char>, Seq<char>>;

/// A setting is sent, or what was there before it is left.
pub open spec fn sent_or(value: Option<Seq<char>>, before: Settings, key: Seq<char>) -> Option<
    Seq<char>,
> {
    match value {
        Some(t) => Some(t),
        None => param(before, key),
    }
}

/// A text spells a number.
pub open spec fn spells(text: Option<Seq<char>>, n: nat) -> bool {
    text matches Some(t) && unsigned_of(t, n as int) == Some(n as int)
}

/// A number that was written spells itself.
proof fn lemma_spells(n: nat, max: int)
    requires
        n <= max,
    ensures
        unsigned_of(decimal(n), max) == Some(n as int),
{
    law_decimal_spells_number(n);
    assert(is_digit(decimal(n)[0]));
}

/// What is found under a name once a setting was made.
pub open spec fn over(
    value: Option<Seq<char>>,
    name: Seq<char>,
    key: Seq<char>,
    below: Option<Seq<char>>,
) -> Option<Seq<char>> {
    if key == name && value is Some {
        value
    } else {
        below
    }
}

/// A setting is found under its own name, and another stays as it was.
proof fn lemma_over(m: Settings, name: Seq<char>, value: Option<Seq<char>>, key: Seq<char>)
    ensures
        param(with_setting(m, name, value), key) == over(value, name, key, param(m, key)),
{
}

/// What is found under a name among the settings of a session.
spec fn found(c: SessionConfig, key: Seq<char>) -> Option<Seq<char>> {
    let p0 = param(c.extra@, key);
    let p1 = over(opt_text(c.contact_points), "contact_points"@, key, p0);
    let p2 = over(opt_text(c.keyspace), "keyspace"@, key, p1);
    let p3 = over(opt_text(c.username), "username"@, key, p2);
    let p4 = over(opt_text(c.password), "password"@, key, p3);
    let p5 = over(opt_decimal(widen(c.connections_per_shard)), "connections_per_shard"@, key, p4);
    let p6 = over(opt_text(c.datacenter), "datacenter"@, key, p5);
    let p7 = over(opt_text(c.rack), "rack"@, key, p6);
    let p8 = over(opt_decimal(c.request_timeout_ms), "request_timeout_ms"@, key, p7);
    let p9 = over(opt_decimal(c.connect_timeout_ms), "connect_timeout_ms"@, key, p8);
    let p10 = over(opt_text(c.consistency), "consistency"@, key, p9);
    let p11 = over(opt_text(c.serial_consistency), "serial_consistency"@, key, p10);
    let p12 = over(opt_decimal(widen(c.default_page_size)), "default_page_size"@, key, p11);
    let p13 = over(opt_word(c.ssl_enabled), "ssl_enabled"@, key, p12);
    let p14 = over(opt_text(c.ssl_ca_cert), "ssl_ca_cert"@, key, p13);
    let p15 = over(opt_text(c.ssl_cert), "ssl_cert"@, key, p14);
    let p16 = over(opt_text(c.ssl_key), "ssl_key"@, key, p15);
    let p17 = over(opt_word(c.ssl_verify_peer), "ssl_verify_peer"@, key, p16);
    p17
}

/// The settings of a session are found under their names.
#[verifier::spinoff_prover]
#[verifier::rlimit(60)]
proof fn lemma_found(c: SessionConfig, key: Seq<char>)
    ensures
        param(c.params(), key) == found(c, key),
{
    let m0 = c.extra@;
    let m1 = with_setting(m0, "contact_points"@, opt_text(c.contact_points));
    let m2 = with_setting(m1, "keyspace"@, opt_text(c.keyspace));
    let m3 = with_setting(m2, "username"@, opt_text(c.username));
    let m4 = with_setting(m3, "password"@, opt_text(c.password));
    let m5 = with_setting(m4, "connections_per_shard"@, opt_decimal(widen(c.connections_per_shard)));
    let m6 = with_setting(m5, "datacenter"@, opt_text(c.datacenter));
    let m7 = with_setting(m6, "rack"@, opt_text(c.rack));
    let m8 = with_setting(m7, "request_timeout_ms"@, opt_decimal(c.request_timeout_ms));
    let m9 = with_setting(m8, "connect_timeout_ms"@, opt_decimal(c.connect_timeout_ms));
    let m10 = with_setting(m9, "consistency"@, opt_text(c.consistency));
    let m11 = with_setting(m10, "serial_consistency"@, opt_text(c.serial_consistency));
    let m12 = with_setting(m11, "default_page_size"@, opt_decimal(widen(c.default_page_size)));
    let m13 = with_setting(m12, "ssl_enabled"@, opt_word(c.ssl_enabled));
    let m14 = with_setting(m13, "ssl_ca_cert"@, opt_text(c.ssl_ca_cert));
    let m15 = with_setting(m14, "ssl_cert"@, opt_text(c.ssl_cert));
    let m16 = with_setting(m15, "ssl_key"@, opt_text(c.ssl_key));
    let m17 = with_setting(m16, "ssl_verify_peer"@, opt_word(c.ssl_verify_peer));
    lemma_over(m0, "contact_points"@, opt_text(c.contact_points), key);
    lemma_over(m1, "keyspace"@, opt_text(c.keyspace), key);
    lemma_over(m2, "username"@, opt_text(c.username), key);
    lemma_over(m3, "password"@, opt_text(c.password), key);
    lemma_over(m4, "connections_per_shard"@, opt_decimal(widen(c.connections_per_shard)), key);
    lemma_over(m5, "datacenter"@, opt_text(c.datacenter), key);
    lemma_over(m6, "rack"@, opt_text(c.rack), key);
    lemma_over(m7, "request_timeout_ms"@, opt_decimal(c.request_timeout_ms), key);
    lemma_over(m8, "connect_timeout_ms"@, opt_decimal(c.connect_timeout_ms), key);
    lemma_over(m9, "consistency"@, opt_text(c.consistency), key);
    lemma_over(m10, "serial_consistency"@, opt_text(c.serial_consistency), key);
    lemma_over(m11, "default_page_size"@, opt_decimal(widen(c.default_page_size)), key);
    lemma_over(m12, "ssl_enabled"@, opt_word(c.ssl_enabled), key);
    lemma_over(m13, "ssl_ca_cert"@, opt_text(c.ssl_ca_cert), key);
    lemma_over(m14, "ssl_cert"@, opt_text(c.ssl_cert), key);
    lemma_over(m15, "ssl_key"@, opt_text(c.ssl_key), key);
    lemma_over(m16, "ssl_verify_peer"@, opt_word(c.ssl_verify_peer), key);
    assert(c.params() == m17);
}

/// The names of the settings differ.
proof fn lemma_names()
    ensures
        "contact_points"@.len() == 14,
        "keyspace"@.len() == 8,
        "username"@.len() == 8,
        "password"@.len() == 8,
        "connections_per_shard"@.len() == 21,
        "datacenter"@.len() == 10,
        "rack"@.len() == 4,
        "request_timeout_ms"@.len() == 18,
        "connect_timeout_ms"@.len() == 18,
        "consistency"@.len() == 11,
        "serial_consistency"@.len() == 18,
        "default_page_size"@.len() == 17,
        "ssl_enabled"@.len() == 11,
        "ssl_ca_cert"@.len() == 11,
        "ssl_cert"@.len() == 8,
        "ssl_key"@.len() == 7,
        "ssl_verify_peer"@.len() == 15,
        "keyspace"@[0] == 'k',
        "username"@[0] == 'u',
        "password"@[0] == 'p',
        "ssl_cert"@[0] == 's',
        "request_timeout_ms"@[0] == 'r',
        "connect_timeout_ms"@[0] == 'c',
        "serial_consistency"@[0] == 's',
        "consistency"@[0] == 'c',
        "ssl_enabled"@[4] == 'e',
        "ssl_ca_cert"@[4] == 'c',
        "consistency"@[4] == 'i',
{
    reveal_strlit("contact_points");
    reveal_strlit("keyspace");
    reveal_strlit("username");
    reveal_strlit("password");
    reveal_strlit("connections_per_shard");
    reveal_strlit("datacenter");
    reveal_strlit("rack");
    reveal_strlit("request_timeout_ms");
    reveal_strlit("connect_timeout_ms");
    reveal_strlit("consistency");
    reveal_strlit("serial_consistency");
    reveal_strlit("default_page_size");
    reveal_strlit("ssl_enabled");
    reveal_strlit("ssl_ca_cert");
    reveal_strlit("ssl_cert");
    reveal_strlit("ssl_key");
    reveal_strlit("ssl_verify_peer");
}

/// Each text among the settings of a session is sent under its own name.
#[verifier::spinoff_prover]
#[verifier::rlimit(60)]
pub proof fn law_texts_are_sent(c: SessionConfig)
    ensures
        param(c.params(), "contact_points"@) == sent_or(
            opt_text(c.contact_points),
            c.extra@,
            "contact_points"@,
        ),
        param(c.params(), "keyspace"@) == sent_or(opt_text(c.keyspace), c.extra@, "keyspace"@),
        param(c.params(), "username"@) == sent_or(opt_text(c.username), c.extra@, "username"@),
        param(c.params(), "password"@) == sent_or(opt_text(c.password), c.extra@, "password"@),
        param(c.params(), "datacenter"@) == sent_or(
            opt_text(c.datacenter),
            c.extra@,
            "datacenter"@,
        ),
        param(c.params(), "rack"@) == sent_or(opt_text(c.rack), c.extra@, "rack"@),
        param(c.params(), "consistency"@) == sent_or(
            opt_text(c.consistency),
            c.extra@,
            "consistency"@,
        ),
        param(c.params(), "serial_consistency"@) == sent_or(
            opt_text(c.serial_consistency),
            c.extra@,
            "serial_consistency"@,
        ),
        param(c.params(), "ssl_ca_cert"@) == sent_or(
            opt_text(c.ssl_ca_cert),
            c.extra@,
            "ssl_ca_cert"@,
        ),
        param(c.params(), "ssl_cert"@) == sent_or(opt_text(c.ssl_cert), c.extra@, "ssl_cert"@),
        param(c.params(), "ssl_key"@) == sent_or(opt_text(c.ssl_key), c.extra@, "ssl_key"@),
{
    lemma_names();
    lemma_found(c, "contact_points"@);
    lemma_found(c, "keyspace"@);
    lemma_found(c, "username"@);
    lemma_found(c, "password"@);
    lemma_found(c, "datacenter"@);
    lemma_found(c, "rack"@);
    lemma_found(c, "consistency"@);
    lemma_found(c, "serial_consistency"@);
    lemma_found(c, "ssl_ca_cert"@);
    lemma_found(c, "ssl_cert"@);
    lemma_found(c, "ssl_key"@);
}

/// Each number among the settings of a session is sent under its own name, in
/// digits that spell it.
#[verifier::spinoff_prover]
#[verifier::rlimit(60)]
pub proof fn law_numbers_are_sent(c: SessionConfig)
    ensures
        match c.connections_per_shard {
            Some(n) => spells(param(c.params(), "connections_per_shard"@), n as nat),
            None => param(c.params(), "connections_per_shard"@) == param(
                c.extra@,
                "connections_per_shard"@,
            ),
        },
        match c.request_timeout_ms {
            Some(n) => spells(param(c.params(), "request_timeout_ms"@), n as nat),
            None => param(c.params(), "request_timeout_ms"@) == param(
                c.extra@,
                "request_timeout_ms"@,
            ),
        },
        match c.connect_timeout_ms {
            Some(n) => spells(param(c.params(), "connect_timeout_ms"@), n as nat),
            None => param(c.params(), "connect_timeout_ms"@) == param(
                c.extra@,
                "connect_timeout_ms"@,
            ),
        },
        match c.default_page_size {
            Some(n) => spells(param(c.params(), "default_page_size"@), n as nat),
            None => param(c.params(), "default_page_size"@) == param(
                c.extra@,
                "default_page_size"@,
            ),
        },
{
    lemma_names();
    lemma_found(c, "connections_per_shard"@);
    lemma_found(c, "request_timeout_ms"@);
    lemma_found(c, "connect_timeout_ms"@);
    lemma_found(c, "default_page_size"@);
    if let Some(n) = c.connections_per_shard {
        lemma_spells(n as nat, n as int);
    }
    if let Some(n) = c.request_timeout_ms {
        lemma_spells(n as nat, n as int);
    }
    if let Some(n) = c.connect_timeout_ms {
        lemma_spells(n as nat, n as int);
    }
    if let Some(n) = c.default_page_size {
        lemma_spells(n as nat, n as int);
    }
}

/// Each switch among the settings of a session is sent under its own name, as a word.
#[verifier::spinoff_prover]
#[verifier::rlimit(60)]
pub proof fn law_switches_are_sent(c: SessionConfig)
    ensures
        match c.ssl_enabled {
            Some(b) => param(c.params(), "ssl_enabled"@) == Some(if b { "true"@ } else { "false"@ }),
            None => param(c.params(), "ssl_enabled"@) == param(c.extra@, "ssl_enabled"@),
        },
        match c.ssl_verify_peer {
            Some(b) => param(c.params(), "ssl_verify_peer"@) == Some(
                if b {
                    "true"@
                } else {
                    "false"@
                },
            ),
            None => param(c.params(), "ssl_verify_peer"@) == param(c.extra@, "ssl_verify_peer"@),
        },
{
    lemma_names();
    lemma_found(c, "ssl_enabled"@);
    lemma_found(c, "ssl_verify_peer"@);
}

/// A setting that a session does not name itself is sent as it is.
#[verifier::spinoff_prover]
#[verifier::rlimit(60)]
pub proof fn law_extra_settings_are_sent(c: SessionConfig, key: Seq<char>)
    requires
        !seq![
            "contact_points"@,
            "keyspace"@,
            "username"@,
            "password"@,
            "connections_per_shard"@,
            "datacenter"@,
            "rack"@,
            "request_timeout_ms"@,
            "connect_timeout_ms"@,
            "consistency"@,
            "serial_consistency"@,
            "default_page_size"@,
            "ssl_enabled"@,
            "ssl_ca_cert"@,
            "ssl_cert"@,
            "ssl_key"@,
            "ssl_verify_peer"@,
        ].contains(key),
    ensures
        param(c.params(), key) == param(c.extra@, key),
{
    let known = seq![
        "contact_points"@,
        "keyspace"@,
        "username"@,
        "password"@,
        "connections_per_shard"@,
        "datacenter"@,
        "rack"@,
        "request_timeout_ms"@,
        "connect_timeout_ms"@,
        "consistency"@,
        "serial_consistency"@,
        "default_page_size"@,
        "ssl_enabled"@,
        "ssl_ca_cert"@,
        "ssl_cert"@,
        "ssl_key"@,
        "ssl_verify_peer"@,
    ];
    lemma_found(c, key);
    assert(forall|i: int| 0 <= i < 17 ==> #[trigger] known[i] != key);
    assert(known[0] != key && known[1] != key && known[2] != key && known[3] != key && known[4]
        != key && known[5] != key && known[6] != key && known[7] != key && known[8] != key
        && known[9] != key && known[10] != key && known[11] != key && known[12] != key && known[13]
        != key && known[14] != key && known[15] != key && known[16] != key);
}

/// The adapter plans a session as it was configured: with the contact points
/// that its text lists, the same names, both parts of a login or neither, the
/// same numbers, and the levels that its texts name. Contact points and a
/// keyspace that are not configured are those of the adapter.
#[verifier::spinoff_prover]
#[verifier::rlimit(60)]
pub proof fn law_plan_follows_session(c: SessionConfig, config: DriverConfig, plan: SessionPlan)
    requires
        c.extra@ == Map::<Seq<char>, Seq<char>>::empty(),
        is_plan(plan, config, c.params()),
    ensures
        texts(plan.contact_points@) == (match c.contact_points {
            Some(t) => parts(t@),
            None => texts(config.contact_points@),
        }),
        opt_text(plan.keyspace) == opt_text(
            if c.keyspace is Some {
                c.keyspace
            } else {
                config.keyspace
            },
        ),
        plan.credentials is Some <==> c.username is Some && c.password is Some,
        plan.credentials matches Some((user, password)) ==> user@ == c.username->0@ && password@
            == c.password->0@,
        opt_text(plan.datacenter) == opt_text(c.datacenter),
        opt_text(plan.rack) == opt_text(c.rack),
        plan.request_timeout_ms == c.request_timeout_ms,
        match c.connections_per_shard {
            Some(n) => if n > 0 {
                plan.connections_per_shard == Some(n as usize)
            } else {
                plan.connections_per_shard is None
            },
            None => plan.connections_per_shard is None,
        },
        match c.consistency {
            Some(t) => plan.consistency == consistency_of(t@),
            None => plan.consistency is None,
        },
        match c.serial_consistency {
            Some(t) => plan.serial_consistency == serial_consistency_of(t@),
            None => plan.serial_consistency is None,
        },
{
    law_texts_are_sent(c);
    law_numbers_are_sent(c);
    if let Some(n) = c.connections_per_shard {
        lemma_spells(n as nat, n as int);
        let t = param(c.params(), "connections_per_shard"@)->0;
        assert(unsigned_of(t, usize::MAX as int) == Some(n as int));
    }
    if let Some(n) = c.request_timeout_ms {
        let t = param(c.params(), "request_timeout_ms"@)->0;
        assert(unsigned_of(t, u64::MAX as int) == Some(n as int));
    }
}

/// A session is planned exactly if there is a contact point and no rack goes
/// without its datacenter; otherwise the first of the two that is missing is named.
pub proof fn law_sessions_are_refused(config: DriverConfig, params: Settings)
    ensures
        plan_error(config, params) == Some(PlanError::EmptyContactPoints) <==> (param(
            params,
            "contact_points"@,
        ) matches Some(raw) && parts(raw).len() == 0),
        plan_error(config, params) == Some(PlanError::NoContactPoints) <==> param(
            params,
            "contact_points"@,
        ) is None && config.contact_points@.len() == 0,
        plan_error(config, params) == Some(PlanError::RackWithoutDatacenter) <==> points_of(
            config,
            params,
        ) is Ok && param(params, "rack"@) is Some && param(params, "datacenter"@) is None,
        points_of(config, params) matches Ok(points) ==> points.len() > 0,
{
}

/// What a connection through an adapter is configured with is what the
/// adapter plans: the addresses, the login, the preferred nodes, the time
/// limit and the levels.
#[verifier::spinoff_prover]
#[verifier::rlimit(60)]
pub proof fn law_plan_follows_connection(
    conf: ConnectionConf,
    c: SessionConfig,
    config: DriverConfig,
    plan: SessionPlan,
)
    requires
        configures(c, conf),
        is_plan(plan, config, c.params()),
        separable(texts(conf.addresses@)),
    ensures
        texts(plan.contact_points@) == texts(conf.addresses@),
        opt_text(plan.keyspace) == opt_text(config.keyspace),
        plan.credentials is Some <==> conf.user@.len() > 0,
        plan.credentials matches Some((user, password)) ==> user@ == conf.user@ && password@
            == conf.password@,
        opt_text(plan.datacenter) == opt_text(conf.datacenter),
        opt_text(plan.rack) == opt_text(conf.rack),
        conf.request_timeout_ms <= u64::MAX ==> plan.request_timeout_ms == Some(
            conf.request_timeout_ms as u64,
        ),
        0 < conf.count <= u32::MAX ==> plan.connections_per_shard == Some(conf.count),
        plan.consistency == Some(conf.consistency),
        plan.serial_consistency == Some(conf.serial_consistency),
{
    law_plan_follows_session(c, config, plan);
    law_joined_parts_are_found(texts(conf.addresses@));
    law_consistency_names(conf.consistency, conf.serial_consistency);
    reveal_strlit(",");
    assert(","@ =~= seq![',']);
}

/// A session is encrypted exactly if the connection is, and only then are the
/// checks and the files of the connection taken over.
pub proof fn law_encryption_follows_connection(conf: ConnectionConf, c: SessionConfig)
    requires
        configures(c, conf),
    ensures
        c.ssl_enabled == Some(true) <==> conf.ssl,
        c.ssl_enabled is Some <==> conf.ssl,
        conf.ssl ==> c.ssl_verify_peer == Some(conf.ssl_peer_verification) && opt_text(
            c.ssl_ca_cert,
        ) == opt_text(conf.ssl_ca_cert_file) && opt_text(c.ssl_cert) == opt_text(conf.ssl_cert_file)
            && opt_text(c.ssl_key) == opt_text(conf.ssl_key_file),
        !conf.ssl ==> c.ssl_verify_peer is None && c.ssl_ca_cert is None && c.ssl_cert is None
            && c.ssl_key is None,
{
}

/// The adapter plans a session as it was built: with its contact points where
/// it has any, its keyspace and its login.
pub proof fn law_plan_follows_builder(
    b: DriverSessionBuilder,
    config: DriverConfig,
    plan: SessionPlan,
)
    requires
        b.others() == Map::<Seq<char>, Seq<char>>::empty(),
        is_plan(plan, config, b.params()),
        separable(b.points()),
    ensures
        texts(plan.contact_points@) == (if b.points().len() > 0 {
            b.points()
        } else {
            texts(config.contact_points@)
        }),
        opt_text(plan.keyspace) == (match b.space() {
            Some(t) => Some(t),
            None => opt_text(config.keyspace),
        }),
        match plan.credentials {
            Some((user, password)) => b.login() == Some((user@, password@)),
            None => b.login() is None,
        },
{
    lemma_names();
    law_joined_parts_are_found(b.points());
    reveal_strlit(",");
    assert(","@ =~= seq![',']);
}

} // verus!
