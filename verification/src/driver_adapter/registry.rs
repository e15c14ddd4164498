//! The sessions that the adapter keeps, and the statements that they prepared.

use super::config::DriverConfig;
use super::convert::{bound_all, convert_to_typed_values, raws, RawValue};
use super::details::{failure_detail, first_detail};
use super::frames::{build_rows_frame, responded, rows_body, void_frame, ColumnSpec};
use super::protocol::{error_body, error_frame, is_response, ErrorCode, Frame, Opcode};
use super::session::{BatchStatement, ParsedBatch, ParsedExecute};
pub use crate::dash::CachedPrepared;
use crate::dash::{
    count_sessions, get_session, get_statement, insert_session, insert_statement, new_sessions,
    new_statements, remove_session, sessions_of, statements_of,
};
use crate::error::CodecError;
use crate::ipc::types::rows_of;
use crate::text::joined;
use crate::value::{opt_vals, CqlValue, IpAddr, Val};
use crate::wire::be4;
use dashmap::DashMap;
use vstd::prelude::*;
use vstd::string::*;

verus! {

/// The sessions, each known by a number, by their ids.
pub struct SessionRegistry {
    config: DriverConfig,
    next_id: u64,
    sessions: DashMap<u64, u64>,
}

impl View for SessionRegistry {
    type V = Map<u64, u64>;

    closed spec fn view(&self) -> Map<u64, u64> {
        sessions_of(self.sessions)
    }
}

impl SessionRegistry {
    /// The id that the next session gets.
    pub closed spec fn next(self) -> u64 {
        self.next_id
    }

    /// The configuration.
    pub closed spec fn settings(self) -> DriverConfig {
        self.config
    }

    /// Every session has an id that was given out: not 0, and below the next one.
    pub open spec fn ids_given(self) -> bool {
        self.next() >= 1 && forall|id: u64| #[trigger]
            self@.dom().contains(id) ==> 1 <= id < self.next()
    }

    /// A registry without sessions. The first session gets the id 1.
    pub fn new(config: DriverConfig) -> (registry: SessionRegistry)
        ensures
            registry@ == Map::<u64, u64>::empty(),
            registry.next() == 1,
            registry.settings() == config,
            registry.ids_given(),
    {
        let sessions: DashMap<u64, u64> = new_sessions();
        assert(sessions_of(sessions) =~= Map::<u64, u64>::empty());
        SessionRegistry { config, next_id: 1, sessions }
    }

    /// The configuration.
    pub fn config(&self) -> (config: &DriverConfig)
        ensures
            *config == self.settings(),
    {
        &self.config
    }

    /// Keeps a session under the next id. While the ids do not run out, the
    /// id is not in use.
    pub fn create_session(&mut self, session: u64) -> (id: u64)
        ensures
            id == old(self).next(),
            final(self)@ == old(self)@.insert(id, session),
            final(self).next() == (if id == u64::MAX {
                0
            } else {
                id + 1
            }),
            final(self).settings() == old(self).settings(),
            old(self).ids_given() ==> !old(self)@.dom().contains(id),
            old(self).ids_given() && id < u64::MAX ==> final(self).ids_given(),
    {
        let id: u64 = self.next_id;
        self.next_id = id.wrapping_add(1);
        insert_session(&mut self.sessions, id, session);
        assert(forall|k: u64| #[trigger]
            self@.dom().contains(k) ==> k == id || old(self)@.dom().contains(k));
        id
    }

    /// The session with an id.
    pub fn get(&self, session_id: u64) -> (r: Option<u64>)
        ensures
            match r {
                Some(session) => self@.dom().contains(session_id) && self@[session_id] == session,
                None => !self@.dom().contains(session_id),
            },
    {
        get_session(&self.sessions, session_id)
    }

    /// Forgets a session; whether it was there.
    pub fn remove(&mut self, session_id: u64) -> (found: bool)
        ensures
            found == old(self)@.dom().contains(session_id),
            final(self)@ == old(self)@.remove(session_id),
            final(self).next() == old(self).next(),
            final(self).settings() == old(self).settings(),
            old(self).ids_given() ==> final(self).ids_given(),
    {
        let found: bool = remove_session(&mut self.sessions, session_id).is_some();
        assert(!found ==> old(self)@.remove(session_id) =~= old(self)@);
        found
    }

    /// The number of sessions.
    pub fn len(&self) -> (n: usize)
        ensures
            n == self@.dom().len(),
    {
        count_sessions(&self.sessions)
    }

    /// Whether there are no sessions.
    pub fn is_empty(&self) -> (r: bool)
        ensures
            r == (self@.dom().len() == 0),
    {
        count_sessions(&self.sessions) == 0
    }
}

/// The prepared statements of a session, by their keys.
pub struct PreparedCache {
    entries: DashMap<String, CachedPrepared>,
}

impl View for PreparedCache {
    type V = Map<Seq<char>, CachedPrepared>;

    closed spec fn view(&self) -> Map<Seq<char>, CachedPrepared> {
        statements_of(self.entries)
    }
}

/// Why the values of a statement cannot be bound.
#[derive(Debug)]
pub enum BindError {
    /// The statement with this key is not prepared.
    Unprepared(String),
    /// A value does not convert to the type of its bind variable; with what is said of the value.
    Value(CodecError, String),
}

/// Why values cannot be bound; the mathematical value of a [`BindError`].
pub enum BindFailure {
    Unprepared(Seq<char>),
    Value(CodecError, Seq<char>),
}

impl View for BindError {
    type V = BindFailure;

    open spec fn view(&self) -> BindFailure {
        match self {
            BindError::Unprepared(key) => BindFailure::Unprepared(key@),
            BindError::Value(e, detail) => BindFailure::Value(*e, detail@),
        }
    }
}

/// What is said of a statement that is not prepared.
pub open spec fn unprepared_text(key: Seq<char>) -> Seq<char> {
    "statement '"@ + key + "' not prepared"@
}

/// The values that a statement is executed with.
pub open spec fn bindings(
    cache: Map<Seq<char>, CachedPrepared>,
    key: Seq<char>,
    values: Seq<RawValue>,
    addresses: Seq<Option<IpAddr>>,
) -> Result<Seq<Option<Val>>, BindFailure> {
    if !cache.dom().contains(key) {
        Err(BindFailure::Unprepared(key))
    } else {
        match bound_all(raws(values), cache[key].bind_types@, addresses, 0) {
            Ok(s) => Ok(s),
            Err(e) => Err(
                BindFailure::Value(
                    e,
                    first_detail(raws(values), cache[key].bind_types@, addresses, 0),
                ),
            ),
        }
    }
}

/// The addresses that the texts of the `i`-th statement spell.
pub open spec fn addresses_at(addresses: Seq<Vec<Option<IpAddr>>>, i: int) -> Seq<Option<IpAddr>> {
    if i < addresses.len() {
        addresses[i]@
    } else {
        Seq::empty()
    }
}

/// The values of the statements of a batch from the `i`-th on, up to the
/// first that cannot be bound.
pub open spec fn batch_bindings(
    cache: Map<Seq<char>, CachedPrepared>,
    statements: Seq<BatchStatement>,
    addresses: Seq<Vec<Option<IpAddr>>>,
    i: nat,
) -> Result<Seq<Seq<Option<Val>>>, BindFailure>
    decreases statements.len() - i,
{
    if i >= statements.len() {
        Ok(Seq::empty())
    } else {
        let statement = statements[i as int];
        match bindings(
            cache,
            statement.statement_key@,
            statement.raw_values@,
            addresses_at(addresses, i as int),
        ) {
            Err(e) => Err(e),
            Ok(values) => match batch_bindings(cache, statements, addresses, i + 1) {
                Err(e) => Err(e),
                Ok(rest) => Ok(seq![values] + rest),
            },
        }
    }
}

impl PreparedCache {
    /// A cache without statements.
    pub fn new() -> (cache: PreparedCache)
        ensures
            cache@ == Map::<Seq<char>, CachedPrepared>::empty(),
    {
        let entries: DashMap<String, CachedPrepared> = new_statements();
        assert(statements_of(entries) =~= Map::<Seq<char>, CachedPrepared>::empty());
        PreparedCache { entries }
    }

    /// Keeps a prepared statement under a key, in place of one that is there.
    pub fn insert(&mut self, key: String, prepared: CachedPrepared)
        ensures
            final(self)@ == old(self)@.insert(key@, prepared),
    {
        insert_statement(&mut self.entries, key, prepared);
    }

    /// The prepared statement with a key.
    pub fn get(&self, key: &str) -> (r: Option<CachedPrepared>)
        ensures
            match r {
                Some(prepared) => self@.dom().contains(key@) && self@[key@] == prepared,
                None => !self@.dom().contains(key@),
            },
    {
        get_statement(&self.entries, key)
    }

    /// Binds values to a prepared statement. `addresses` holds the addresses
    /// that texts among the values spell.
    fn bind(&self, key: &String, values: &Vec<RawValue>, addresses: &Vec<Option<IpAddr>>) -> (r: Result<
        Vec<Option<CqlValue>>,
        BindError,
    >)
        ensures
            match bindings(self@, key@, values@, addresses@) {
                Ok(s) => r is Ok && opt_vals(r->Ok_0@) == s,
                Err(e) => r is Err && r->Err_0@ == e,
            },
    {
        match self.get(key.as_str()) {
            None => Err(BindError::Unprepared(key.clone())),
            Some(prepared) => match convert_to_typed_values(
                values,
                &prepared.bind_types,
                addresses,
            ) {
                Ok(typed) => Ok(typed),
                Err(e) => Err(
                    BindError::Value(e, failure_detail(values, &prepared.bind_types, addresses)),
                ),
            },
        }
    }

    /// The values that an EXECUTE request executes its statement with.
    pub fn bind_execute(&self, parsed: &ParsedExecute, addresses: &Vec<Option<IpAddr>>) -> (r: Result<
        Vec<Option<CqlValue>>,
        BindError,
    >)
        ensures
            match bindings(self@, parsed.statement_key@, parsed.raw_values@, addresses@) {
                Ok(s) => r is Ok && opt_vals(r->Ok_0@) == s,
                Err(e) => r is Err && r->Err_0@ == e,
            },
    {
        self.bind(&parsed.statement_key, &parsed.raw_values, addresses)
    }

    /// The values that a BATCH request executes its statements with.
    pub fn bind_batch(&self, parsed: &ParsedBatch, addresses: &Vec<Vec<Option<IpAddr>>>) -> (r: Result<
        Vec<Vec<Option<CqlValue>>>,
        BindError,
    >)
        ensures
            match batch_bindings(self@, parsed.statements@, addresses@, 0) {
                Ok(s) => r is Ok && rows_of(r->Ok_0@) == s,
                Err(e) => r is Err && r->Err_0@ == e,
            },
    {
        let none: Vec<Option<IpAddr>> = Vec::new();
        let mut all: Vec<Vec<Option<CqlValue>>> = Vec::new();
        let ghost whole = batch_bindings(self@, parsed.statements@, addresses@, 0);
        let mut i: usize = 0;
        assert(rows_of(all@) =~= Seq::empty());
        proof {
            if let Ok(s) = whole {
                assert(Seq::empty() + s =~= s);
            }
        }
        while i < parsed.statements.len()
            invariant
                i <= parsed.statements@.len(),
                none@ =~= Seq::empty(),
                whole == batch_bindings(self@, parsed.statements@, addresses@, 0),
                whole == (match batch_bindings(
                    self@,
                    parsed.statements@,
                    addresses@,
                    i as nat,
                ) {
                    Ok(rest) => Ok::<Seq<Seq<Option<Val>>>, BindFailure>(rows_of(all@) + rest),
                    Err(e) => Err(e),
                }),
            decreases parsed.statements@.len() - i,
        {
            let ghost before = all@;
            let statement: &BatchStatement = &parsed.statements[i];
            let known: &Vec<Option<IpAddr>> = if i < addresses.len() {
                &addresses[i]
            } else {
                &none
            };
            assert(known@ =~= addresses_at(addresses@, i as int));
            match self.bind(&statement.statement_key, &statement.raw_values, known) {
                Err(e) => {
                    return Err(e);
                },
                Ok(values) => {
                    all.push(values);
                    proof {
                        let v = opt_vals(values@);
                        assert(rows_of(all@) =~= rows_of(before).push(v));
                        if let Ok(rest) = batch_bindings(
                            self@,
                            parsed.statements@,
                            addresses@,
                            (i + 1) as nat,
                        ) {
                            assert(rows_of(before) + (seq![v] + rest) =~= rows_of(all@) + rest);
                        }
                    }
                },
            }
            i = i + 1;
        }
        assert(rows_of(all@) + Seq::empty() =~= rows_of(all@));
        Ok(all)
    }
}

/// The ERROR frame for a statement that is not prepared.
pub fn unprepared_frame(stream: i16, key: &str) -> (frame: Frame)
    ensures
        is_response(
            frame,
            stream,
            Opcode::Error,
            error_body(ErrorCode::Unprepared, unprepared_text(key@)),
        ),
{
    let text: String = joined("statement '", key, "' not prepared");
    error_frame(stream, ErrorCode::Unprepared, text.as_str())
}

/// What a statement came back with.
pub enum Executed {
    Rows { columns: Vec<ColumnSpec>, rows: Vec<Vec<Option<CqlValue>>> },
    Void,
}

/// The RESULT frame of a statement that was executed.
pub fn result_frame(stream: i16, executed: &Executed) -> (r: Result<Frame, CodecError>)
    ensures
        match executed {
            Executed::Rows { columns, rows } => responded(
                rows_body(columns@, rows_of(rows@)),
                r,
                stream,
                Opcode::Result,
            ),
            Executed::Void => r is Ok && is_response(r->Ok_0, stream, Opcode::Result, be4(1)),
        },
{
    match executed {
        Executed::Rows { columns, rows } => build_rows_frame(stream, columns, rows),
        Executed::Void => Ok(void_frame(stream)),
    }
}

/// How a batch is logged.
#[derive(Debug, Clone, Copy, PartialEq, Eq, Structural)]
pub enum BatchType {
    Logged,
    Unlogged,
    Counter,
}

/// The type of a batch by its number; an unknown number stands for a logged batch.
pub fn batch_type_of(n: u8) -> (t: BatchType)
    ensures
        t == (if n == 1 {
            BatchType::Unlogged
        } else if n == 2 {
            BatchType::Counter
        } else {
            BatchType::Logged
        }),
{
    match n {
        1 => BatchType::Unlogged,
        2 => BatchType::Counter,
        _ => BatchType::Logged,
    }
}

/// The values of a batch are bound statement by statement: there is a row of
/// values for each statement, in their order, each as it is bound alone; and
/// where one cannot be bound, what is wrong with the first such one is said.
pub proof fn law_batch_is_bound_one_by_one(
    cache: Map<Seq<char>, CachedPrepared>,
    statements: Seq<BatchStatement>,
    addresses: Seq<Vec<Option<IpAddr>>>,
)
    ensures
        match batch_bindings(cache, statements, addresses, 0) {
            Ok(rows) => rows.len() == statements.len() && forall|i: int|
                0 <= i < statements.len() ==> bindings(
                    cache,
                    (#[trigger] statements[i]).statement_key@,
                    statements[i].raw_values@,
                    addresses_at(addresses, i),
                ) == Ok::<Seq<Option<Val>>, BindFailure>(rows[i]),
            Err(e) => exists|i: int|
                0 <= i < statements.len() && bindings(
                    cache,
                    (#[trigger] statements[i]).statement_key@,
                    statements[i].raw_values@,
                    addresses_at(addresses, i),
                ) == Err::<Seq<Option<Val>>, BindFailure>(e),
        },
{
    lemma_bound_from(cache, statements, addresses, 0);
}

/// The values of the statements from one on are bound one by one.
proof fn lemma_bound_from(
    cache: Map<Seq<char>, CachedPrepared>,
    statements: Seq<BatchStatement>,
    addresses: Seq<Vec<Option<IpAddr>>>,
    k: nat,
)
    requires
        k <= statements.len(),
    ensures
        match batch_bindings(cache, statements, addresses, k) {
            Ok(rows) => rows.len() == statements.len() - k && forall|i: int|
                k <= i < statements.len() ==> bindings(
                    cache,
                    (#[trigger] statements[i]).statement_key@,
                    statements[i].raw_values@,
                    addresses_at(addresses, i),
                ) == Ok::<Seq<Option<Val>>, BindFailure>(rows[i - k]),
            Err(e) => exists|i: int|
                k <= i < statements.len() && bindings(
                    cache,
                    (#[trigger] statements[i]).statement_key@,
                    statements[i].raw_values@,
                    addresses_at(addresses, i),
                ) == Err::<Seq<Option<Val>>, BindFailure>(e),
        },
    decreases statements.len() - k,
{
    if k < statements.len() {
        lemma_bound_from(cache, statements, addresses, k + 1);
        let first = statements[k as int];
        if let Ok(rows) = batch_bindings(cache, statements, addresses, k) {
            let rest = batch_bindings(cache, statements, addresses, k + 1)->Ok_0;
            assert forall|i: int| k <= i < statements.len() implies bindings(
                cache,
                (#[trigger] statements[i]).statement_key@,
                statements[i].raw_values@,
                addresses_at(addresses, i),
            ) == Ok::<Seq<Option<Val>>, BindFailure>(rows[i - k]) by {
                if i > k {
                    assert(rows[i - k] == rest[i - k - 1]);
                }
            }
        }
    }
}

/// A statement is executed exactly if it was prepared, and as it was prepared
/// last: another statement's preparation does not change what is bound.
pub proof fn law_only_prepared_statements_are_bound(
    cache: Map<Seq<char>, CachedPrepared>,
    key: Seq<char>,
    other: Seq<char>,
    prepared: CachedPrepared,
    values: Seq<RawValue>,
    addresses: Seq<Option<IpAddr>>,
)
    ensures
        bindings(cache, key, values, addresses) matches Err(BindFailure::Unprepared(k)) ==> k == key
            && !cache.contains_key(key),
        !cache.contains_key(key) ==> bindings(cache, key, values, addresses) == Err::<
            Seq<Option<Val>>,
            BindFailure,
        >(BindFailure::Unprepared(key)),
        other != key ==> bindings(cache.insert(other, prepared), key, values, addresses)
            == bindings(cache, key, values, addresses),
        bindings(cache.insert(key, prepared), key, values, addresses) is Ok <==> bound_all(
            raws(values),
            prepared.bind_types@,
            addresses,
            0,
        ) is Ok,
        bindings(cache.insert(key, prepared), key, values, addresses) matches Ok(s) ==> bound_all(
            raws(values),
            prepared.bind_types@,
            addresses,
            0,
        ) == Ok::<Seq<Option<Val>>, CodecError>(s),
{
}

} // verus!
