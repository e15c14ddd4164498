//! What a client asks for is what the adapter is asked for, and what the
//! adapter answers is what the client reads.

use super::convert::Raw;
use super::laws::{carries, law_value_round_trip, sendable};
use super::session::{
    batch_of, counted_values_at, execute_of, long_string_at, pairs_at, prepare_of, query_of,
    raw_values_at, statement_at, statements_at, string_map_at, text_at, u16_at, u64_at, u8_at,
    PrepareReq, QueryReq,
};
use crate::cql_adapter::server::{asked, Asked};
use super::protocol::Opcode;
use crate::ipc::client::{
    all_encoded, batch_body, batch_statements, execute_body, long_string, map_strings,
    prepare_body, query_body, short_string, string_map_bytes, values_bytes,
};
use crate::ipc::decode::after_at;
use crate::ipc::encode::{encoded, max_len};
use crate::reader::{lossy_string_at, string_at, At};
use crate::string_map::to_map;
use crate::text::lemma_utf8_round_trip;
use crate::value::{law_consistency_round_trip, vals, Consistency, CqlValue, Val};
use crate::wire::{be2, be4, be8, lemma_be2, lemma_be4, lemma_be8, un8};
use vstd::prelude::*;
use vstd::string::*;
use vstd::utf8::encode_utf8;

verus! {

broadcast use crate::wire::group_be;

/// A string behind its 16-bit length is read back, by every reader of strings.
pub proof fn lemma_short_string(t: Seq<char>, rest: Seq<u8>)
    requires
        short_string(t) is Ok,
    ensures
        string_at(short_string(t)->Ok_0 + rest) == At::Ok((t, rest)),
        text_at(short_string(t)->Ok_0 + rest) == At::Ok((t, rest)),
        lossy_string_at(short_string(t)->Ok_0 + rest) == At::Ok((t, rest)),
{
    let bytes = encode_utf8(t);
    let n = bytes.len() as int;
    let s = short_string(t)->Ok_0 + rest;
    assert(s =~= be2(n) + (bytes + rest));
    lemma_be2(n, bytes + rest);
    assert((bytes + rest).take(n) =~= bytes);
    assert((bytes + rest).skip(n) =~= rest);
    lemma_utf8_round_trip(t);
}

/// A string behind its 32-bit length is read back.
proof fn lemma_long_string(t: Seq<char>, rest: Seq<u8>)
    requires
        encode_utf8(t).len() <= max_len(),
    ensures
        long_string_at(long_string(t) + rest) == At::Ok((t, rest)),
{
    let bytes = encode_utf8(t);
    let n = bytes.len() as int;
    let s = long_string(t) + rest;
    assert(s =~= be4(n) + (bytes + rest));
    lemma_be4(n, bytes + rest);
    assert((bytes + rest).take(n) =~= bytes);
    assert((bytes + rest).skip(n) =~= rest);
    lemma_utf8_round_trip(t);
}

/// One pair is read, and then the others.
proof fn lemma_pair(key: Seq<char>, value: Seq<char>, rest: Seq<u8>, n: nat)
    requires
        n > 0,
        short_string(key) is Ok,
        short_string(value) is Ok,
    ensures
        pairs_at(short_string(key)->Ok_0 + short_string(value)->Ok_0 + rest, n) == after_at(
            seq![(key, value)],
            pairs_at(rest, (n - 1) as nat),
        ),
{
    let k = short_string(key)->Ok_0;
    let v = short_string(value)->Ok_0;
    assert(k + v + rest =~= k + (v + rest));
    lemma_short_string(key, v + rest);
    lemma_short_string(value, rest);
}

/// The pairs of a map are read back.
#[verifier::spinoff_prover]
proof fn lemma_pairs(items: Seq<(Seq<char>, Seq<char>)>, rest: Seq<u8>)
    requires
        map_strings(items) is Ok,
    ensures
        pairs_at(map_strings(items)->Ok_0 + rest, items.len()) == At::Ok((items, rest)),
    decreases items.len(),
{
    if items.len() == 0 {
        assert(map_strings(items)->Ok_0 + rest =~= rest);
        assert(items =~= Seq::empty());
    } else {
        let more = items.skip(1);
        let key = short_string(items[0].0)->Ok_0;
        let value = short_string(items[0].1)->Ok_0;
        let b = map_strings(more)->Ok_0;
        lemma_pairs(more, rest);
        assert(map_strings(items)->Ok_0 + rest =~= key + value + (b + rest));
        lemma_pair(items[0].0, items[0].1, b + rest, items.len());
        assert(seq![items[0]] + more =~= items);
    }
}

/// The parameters that a client sends are those that the adapter is asked to
/// create a session with.
pub proof fn law_session_params_round_trip(items: Seq<(Seq<char>, Seq<char>)>, sessions: Set<u64>)
    requires
        string_map_bytes(items) is Ok,
    ensures
        asked(Opcode::CreateSession, string_map_bytes(items)->Ok_0, sessions)
            == Asked::CreateSession(to_map(items)),
{
    let none = Seq::<u8>::empty();
    let b = map_strings(items)->Ok_0;
    lemma_be2(items.len() as int, b);
    lemma_pairs(items, none);
    assert(b + none =~= b);
    assert(string_map_at(string_map_bytes(items)->Ok_0) == At::Ok((to_map(items), none)));
}

/// A QUERY request asks the adapter for what the client was asked for.
pub proof fn law_query_round_trip(session: u64, query: Seq<char>, consistency: Consistency)
    requires
        encode_utf8(query).len() <= max_len(),
    ensures
        query_of(query_body(session, query, consistency)) == Ok::<_, super::session::ParseError>(
            QueryReq { session_id: session, query, consistency },
        ),
{
    let flags = seq![0u8];
    let level = be2(consistency.code() as int);
    let body = query_body(session, query, consistency);
    assert(body =~= be8(session as int) + (long_string(query) + (level + flags)));
    lemma_be8(session as int, long_string(query) + (level + flags));
    lemma_long_string(query, level + flags);
    lemma_be2(consistency.code() as int, flags);
    law_consistency_round_trip(consistency);
}

/// A PREPARE request asks the adapter for what the client was asked for.
pub proof fn law_prepare_round_trip(session: u64, query: Seq<char>, key: Seq<char>)
    requires
        encode_utf8(query).len() <= max_len(),
        prepare_body(session, query, key) is Ok,
    ensures
        prepare_of(prepare_body(session, query, key)->Ok_0) == Ok::<_, super::session::ParseError>(
            PrepareReq { session_id: session, query, statement_key: key },
        ),
{
    let none = Seq::<u8>::empty();
    let k = short_string(key)->Ok_0;
    let body = prepare_body(session, query, key)->Ok_0;
    assert(body =~= be8(session as int) + (long_string(query) + k));
    lemma_be8(session as int, long_string(query) + k);
    lemma_long_string(query, k);
    lemma_short_string(key, none);
    assert(k + none =~= k);
}

/// Bind values that the adapter reads stand for values, one by one.
pub open spec fn carry(raws: Seq<Raw>, values: Seq<Val>) -> bool {
    raws.len() == values.len() && forall|i: int|
        0 <= i < values.len() ==> carries(#[trigger] raws[i], values[i])
}

/// All values are sent and decoded again.
pub open spec fn all_sendable(values: Seq<Val>) -> bool {
    forall|i: int| 0 <= i < values.len() ==> sendable(#[trigger] values[i])
}

/// Values are read back.
proof fn lemma_all_values(values: Seq<Val>, rest: Seq<u8>)
    requires
        all_sendable(values),
        all_encoded(values) is Ok,
    ensures
        raw_values_at(all_encoded(values)->Ok_0 + rest, values.len()) matches Ok((raws, behind))
            && behind == rest && carry(raws, values),
    decreases values.len(),
{
    reveal(all_encoded);
    if values.len() == 0 {
        assert(all_encoded(values)->Ok_0 + rest =~= rest);
    } else {
        let more = values.skip(1);
        assert forall|i: int| 0 <= i < more.len() implies sendable(#[trigger] more[i]) by {
            assert(more[i] == values[i + 1]);
        }
        lemma_all_values(more, rest);
        assert(sendable(values[0]));
        let first = encoded(values[0])->Ok_0;
        let b = all_encoded(more)->Ok_0;
        assert(all_encoded(values)->Ok_0 + rest =~= first + (b + rest));
        law_value_round_trip(values[0], b + rest);
        let raws = raw_values_at(all_encoded(values)->Ok_0 + rest, values.len())->Ok_0.0;
        let rest_raws = raw_values_at(b + rest, more.len())->Ok_0.0;
        assert forall|i: int| 0 <= i < values.len() implies carries(
            #[trigger] raws[i],
            values[i],
        ) by {
            if i > 0 {
                assert(raws[i] == rest_raws[i - 1]);
                assert(carries(rest_raws[i - 1], more[i - 1]));
            }
        }
    }
}

/// Values behind their number are read back.
proof fn lemma_counted_values(values: Seq<Val>, rest: Seq<u8>)
    requires
        all_sendable(values),
        values_bytes(values) is Ok,
    ensures
        counted_values_at(values_bytes(values)->Ok_0 + rest) matches Ok((raws, behind)) && behind
            == rest && carry(raws, values),
{
    let b = all_encoded(values)->Ok_0;
    assert(values_bytes(values)->Ok_0 + rest =~= be2(values.len() as int) + (b + rest));
    lemma_be2(values.len() as int, b + rest);
    lemma_all_values(values, rest);
}

/// The head of an EXECUTE request is read back.
proof fn lemma_execute_head(session: u64, key: Seq<char>, consistency: Consistency, tail: Seq<u8>)
    requires
        short_string(key) is Ok,
    ensures
        ({
            let k = short_string(key)->Ok_0;
            let level = be2(consistency.code() as int);
            &&& u64_at(be8(session as int) + k + level + tail) == At::Ok(
                (session, k + (level + tail)),
            )
            &&& text_at(k + (level + tail)) == At::Ok((key, level + tail))
            &&& u16_at(level + tail) == At::Ok((consistency.code(), tail))
        }),
{
    let k = short_string(key)->Ok_0;
    let level = be2(consistency.code() as int);
    assert(be8(session as int) + k + level + tail =~= be8(session as int) + (k + (level + tail)));
    lemma_be8(session as int, k + (level + tail));
    lemma_short_string(key, level + tail);
    lemma_be2(consistency.code() as int, tail);
}

/// The body of an EXECUTE request is its head, and values where there are any.
proof fn lemma_execute_shape(
    session: u64,
    key: Seq<char>,
    consistency: Consistency,
    values: Seq<Val>,
) -> (tail: Seq<u8>)
    requires
        execute_body(session, key, consistency, values) is Ok,
    ensures
        execute_body(session, key, consistency, values)->Ok_0 == be8(session as int)
            + short_string(key)->Ok_0 + be2(consistency.code() as int) + tail,
        tail == (if values.len() == 0 {
            seq![0u8]
        } else {
            seq![1u8] + values_bytes(values)->Ok_0
        }),
{
    let tail = if values.len() == 0 {
        seq![0u8]
    } else {
        seq![1u8] + values_bytes(values)->Ok_0
    };
    assert(execute_body(session, key, consistency, values)->Ok_0 =~= be8(session as int)
        + short_string(key)->Ok_0 + be2(consistency.code() as int) + tail);
    tail
}

/// The values of an EXECUTE request are read back.
proof fn lemma_execute_values(values: Seq<Val>)
    requires
        all_sendable(values),
        values_bytes(values) is Ok,
    ensures
        counted_values_at((seq![1u8] + values_bytes(values)->Ok_0).skip(1)) matches Ok((raws, _))
            && carry(raws, values),
{
    let none = Seq::<u8>::empty();
    let b = values_bytes(values)->Ok_0;
    assert((seq![1u8] + b).skip(1) =~= b);
    assert(b + none =~= b);
    lemma_counted_values(values, none);
}

/// An EXECUTE request asks the adapter for what the client was asked for.
#[verifier::spinoff_prover]
#[verifier::rlimit(60)]
pub proof fn law_execute_round_trip(
    session: u64,
    key: Seq<char>,
    consistency: Consistency,
    values: Seq<Val>,
)
    requires
        all_sendable(values),
        execute_body(session, key, consistency, values) is Ok,
    ensures
        execute_of(execute_body(session, key, consistency, values)->Ok_0) matches Ok(req)
            && req.session_id == session && req.statement_key == key && req.consistency
            == consistency && carry(req.values, values),
{
    let tail = lemma_execute_shape(session, key, consistency, values);
    let body = execute_body(session, key, consistency, values)->Ok_0;
    lemma_execute_head(session, key, consistency, tail);
    law_consistency_round_trip(consistency);
    let flags = if values.len() == 0 { 0u8 } else { 1u8 };
    assert(u8_at(tail) == At::Ok((flags, tail.skip(1))));
    if values.len() > 0 {
        lemma_execute_values(values);
        assert(counted_values_at(tail.skip(1)) is Ok);
        assert(execute_of(body) is Ok);
    } else {
        assert(execute_of(body) is Ok);
        assert(execute_of(body)->Ok_0.values =~= Seq::empty());
    }
}

/// The statements of a batch that the adapter reads are those that were sent.
pub open spec fn carry_statements(
    read: Seq<(Seq<char>, Seq<Raw>)>,
    statements: Seq<(&str, &[CqlValue])>,
) -> bool {
    read.len() == statements.len() && forall|i: int|
        0 <= i < statements.len() ==> (#[trigger] read[i]).0 == statements[i].0@ && carry(
            read[i].1,
            vals(statements[i].1@),
        )
}

/// All values of all statements are sent and decoded again.
pub open spec fn statements_sendable(statements: Seq<(&str, &[CqlValue])>) -> bool {
    forall|i: int| 0 <= i < statements.len() ==> all_sendable(vals((#[trigger] statements[i]).1@))
}

/// A statement of a batch is read back.
#[verifier::spinoff_prover]
proof fn lemma_statement(key: Seq<char>, values: Seq<Val>, rest: Seq<u8>)
    requires
        all_sendable(values),
        short_string(key) is Ok,
        values_bytes(values) is Ok,
    ensures
        statement_at(
            seq![1u8] + short_string(key)->Ok_0 + values_bytes(values)->Ok_0 + rest,
        ) matches Ok((read, behind)) && behind == rest && read.0 == key && carry(read.1, values),
{
    let k = short_string(key)->Ok_0;
    let v = values_bytes(values)->Ok_0;
    let s = seq![1u8] + k + v + rest;
    assert(s.skip(1) =~= k + (v + rest));
    assert(u8_at(s) == At::Ok((1u8, k + (v + rest))));
    lemma_short_string(key, v + rest);
    lemma_counted_values(values, rest);
}

/// The statements of a batch, the first apart from the others.
proof fn lemma_statements_shape(statements: Seq<(&str, &[CqlValue])>, rest: Seq<u8>)
    requires
        statements.len() > 0,
        batch_statements(statements) is Ok,
    ensures
        short_string(statements[0].0@) is Ok,
        values_bytes(vals(statements[0].1@)) is Ok,
        batch_statements(statements.skip(1)) is Ok,
        batch_statements(statements)->Ok_0 + rest == seq![1u8] + short_string(
            statements[0].0@,
        )->Ok_0 + values_bytes(vals(statements[0].1@))->Ok_0 + (batch_statements(
            statements.skip(1),
        )->Ok_0 + rest),
{
    let key = short_string(statements[0].0@)->Ok_0;
    let values = values_bytes(vals(statements[0].1@))->Ok_0;
    let more = batch_statements(statements.skip(1))->Ok_0;
    assert(batch_statements(statements)->Ok_0 + rest =~= seq![1u8] + key + values + (more + rest));
}

/// Statements that are read behind a first one.
proof fn lemma_statements_step(s: Seq<u8>, n: nat)
    requires
        n > 0,
        statement_at(s) is Ok,
        statements_at(statement_at(s)->Ok_0.1, (n - 1) as nat) is Ok,
    ensures
        ({
            let (first, behind) = statement_at(s)->Ok_0;
            let (more, rest) = statements_at(behind, (n - 1) as nat)->Ok_0;
            statements_at(s, n) matches Ok((read, end)) && read == seq![first] + more && end == rest
        }),
{
}

/// A statement and those behind it stand for what was sent.
proof fn lemma_carry_statements(
    first: (Seq<char>, Seq<Raw>),
    more: Seq<(Seq<char>, Seq<Raw>)>,
    statements: Seq<(&str, &[CqlValue])>,
)
    requires
        statements.len() > 0,
        first.0 == statements[0].0@,
        carry(first.1, vals(statements[0].1@)),
        carry_statements(more, statements.skip(1)),
    ensures
        carry_statements(seq![first] + more, statements),
{
    let read = seq![first] + more;
    let others = statements.skip(1);
    assert forall|i: int| 0 <= i < statements.len() implies (#[trigger] read[i]).0
        == statements[i].0@ && carry(read[i].1, vals(statements[i].1@)) by {
        if i > 0 {
            assert(read[i] == more[i - 1]);
            assert(others[i - 1] == statements[i]);
        }
    }
}

/// The statements of a batch are read back.
#[verifier::spinoff_prover]
#[verifier::rlimit(60)]
proof fn lemma_statements(statements: Seq<(&str, &[CqlValue])>, rest: Seq<u8>)
    requires
        statements_sendable(statements),
        batch_statements(statements) is Ok,
    ensures
        statements_at(
            batch_statements(statements)->Ok_0 + rest,
            statements.len(),
        ) matches Ok((read, behind)) && behind == rest && carry_statements(read, statements),
    decreases statements.len(),
{
    if statements.len() == 0 {
        assert(batch_statements(statements)->Ok_0 + rest =~= rest);
    } else {
        let more = statements.skip(1);
        lemma_statements_shape(statements, rest);
        assert(statements_sendable(more)) by {
            assert forall|i: int| 0 <= i < more.len() implies all_sendable(
                vals((#[trigger] more[i]).1@),
            ) by {
                assert(more[i] == statements[i + 1]);
            }
        }
        lemma_statements(more, rest);
        let behind = batch_statements(more)->Ok_0 + rest;
        let s = batch_statements(statements)->Ok_0 + rest;
        assert(all_sendable(vals(statements[0].1@)));
        lemma_statement(statements[0].0@, vals(statements[0].1@), behind);
        lemma_statements_step(s, statements.len());
        lemma_carry_statements(
            statement_at(s)->Ok_0.0,
            statements_at(behind, more.len())->Ok_0.0,
            statements,
        );
    }
}

/// The body of a BATCH request, part by part.
proof fn lemma_batch_shape(
    session: u64,
    statements: Seq<(&str, &[CqlValue])>,
    consistency: Consistency,
)
    requires
        batch_body(session, statements, consistency) is Ok,
    ensures
        ({
            let n = statements.len() as int;
            let tail = be2(consistency.code() as int) + seq![0u8];
            let rest = batch_statements(statements)->Ok_0 + tail;
            let s = seq![0u8] + (be2(n) + rest);
            &&& u64_at(batch_body(session, statements, consistency)->Ok_0) == At::Ok((session, s))
            &&& u8_at(s) == At::Ok((0u8, be2(n) + rest))
            &&& u16_at(be2(n) + rest) == At::Ok((n as u16, rest))
            &&& u16_at(tail) == At::Ok((consistency.code(), seq![0u8]))
        }),
{
    let n = statements.len() as int;
    let tail = be2(consistency.code() as int) + seq![0u8];
    let rest = batch_statements(statements)->Ok_0 + tail;
    let s = seq![0u8] + (be2(n) + rest);
    assert(batch_body(session, statements, consistency)->Ok_0 =~= be8(session as int) + s);
    lemma_be8(session as int, s);
    assert(s.skip(1) =~= be2(n) + rest);
    lemma_be2(n, rest);
    lemma_be2(consistency.code() as int, seq![0u8]);
}

/// A BATCH request asks the adapter for what the client was asked for, in a
/// batch of the first type.
pub proof fn law_batch_round_trip(
    session: u64,
    statements: Seq<(&str, &[CqlValue])>,
    consistency: Consistency,
)
    requires
        statements_sendable(statements),
        batch_body(session, statements, consistency) is Ok,
    ensures
        batch_of(batch_body(session, statements, consistency)->Ok_0) matches Ok(req)
            && req.session_id == session && req.batch_type == 0 && req.consistency == consistency
            && carry_statements(req.statements, statements),
{
    lemma_batch_shape(session, statements, consistency);
    lemma_statements(statements, be2(consistency.code() as int) + seq![0u8]);
    law_consistency_round_trip(consistency);
}

/// The id that the adapter answers a new session with is the one that the client reads.
pub proof fn law_session_id_round_trip(session: u64)
    ensures
        be8(session as int).len() == 8,
        un8(be8(session as int)) == session,
{
    let none = Seq::<u8>::empty();
    lemma_be8(session as int, none);
    assert(be8(session as int) + none =~= be8(session as int));
}

} // verus!
