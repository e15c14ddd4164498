//! The requests of the IPC client, and what its replies mean.

use super::decode::{decode_rows_result, rows_result_at};
use super::encode::{encode_value, encoded};
use super::protocol::{decode_error_message, error_message_spec, Frame, Opcode};
use super::types::{Outcome, QueryResult, SessionId};
use crate::error::{after, lemma_after, wrote, Coded, CodecError, Limit};
use crate::reader::{int_at, lossy_string_at, read_int, read_lossy_string};
use crate::string_map::StringMap;
use crate::text::lemma_utf8_round_trip;
use crate::value::{vals, Consistency, CqlValue, Val};
use crate::wire::{
    be2, be4, be8, bytes_slice, contents, lemma_be2, lemma_be4, lemma_be8, low_u32,
    mut_contents, new_buffer, put_slice, put_u16, put_u32, put_u64, put_u8, read_be8, un8,
};
use bytes::BytesMut;
use vstd::prelude::*;
use vstd::string::*;
use vstd::utf8::encode_utf8;

verus! {

broadcast use crate::wire::group_be;

/// A string behind its 16-bit length.
pub open spec fn short_string(s: Seq<char>) -> Coded {
    let bytes = encode_utf8(s);
    if bytes.len() > 0xFFFF {
        Err(CodecError::TooLong(Limit::String))
    } else {
        Ok(be2(bytes.len() as int) + bytes)
    }
}

/// A string behind its 32-bit length.
pub open spec fn long_string(s: Seq<char>) -> Seq<u8> {
    be4(encode_utf8(s).len() as int) + encode_utf8(s)
}

/// The keys and values of a map, one after the other.
pub open spec fn map_strings(items: Seq<(Seq<char>, Seq<char>)>) -> Coded
    decreases items.len(),
{
    if items.len() == 0 {
        Ok(Seq::empty())
    } else {
        match short_string(items[0].0) {
            Err(e) => Err(e),
            Ok(key) => match short_string(items[0].1) {
                Err(e) => Err(e),
                Ok(value) => after(key + value, map_strings(items.skip(1))),
            },
        }
    }
}

/// A map behind the number of its entries.
pub open spec fn string_map_bytes(items: Seq<(Seq<char>, Seq<char>)>) -> Coded {
    if items.len() > 0xFFFF {
        Err(CodecError::TooLong(Limit::MapEntries))
    } else {
        after(be2(items.len() as int), map_strings(items))
    }
}

/// Values, one after the other.
#[verifier::opaque]
pub open spec fn all_encoded(values: Seq<Val>) -> Coded
    decreases values.len(),
{
    if values.len() == 0 {
        Ok(Seq::empty())
    } else {
        match encoded(values[0]) {
            Err(e) => Err(e),
            Ok(bytes) => after(bytes, all_encoded(values.skip(1))),
        }
    }
}

/// Values behind their number.
pub open spec fn values_bytes(values: Seq<Val>) -> Coded {
    if values.len() > 0xFFFF {
        Err(CodecError::TooLong(Limit::Values))
    } else {
        after(be2(values.len() as int), all_encoded(values))
    }
}

/// The body of a QUERY request.
pub open spec fn query_body(session: u64, query: Seq<char>, consistency: Consistency) -> Seq<u8> {
    be8(session as int) + long_string(query) + be2(consistency.code() as int) + seq![0u8]
}

/// The body of a PREPARE request.
pub open spec fn prepare_body(session: u64, query: Seq<char>, key: Seq<char>) -> Coded {
    after(be8(session as int) + long_string(query), short_string(key))
}

/// The body of an EXECUTE request; the last bit of the flags says that values follow.
pub open spec fn execute_body(
    session: u64,
    key: Seq<char>,
    consistency: Consistency,
    values: Seq<Val>,
) -> Coded {
    match short_string(key) {
        Err(e) => Err(e),
        Ok(key) => {
            let head = be8(session as int) + key + be2(consistency.code() as int);
            if values.len() == 0 {
                Ok(head + seq![0u8])
            } else {
                after(head + seq![1u8], values_bytes(values))
            }
        },
    }
}

/// The statements of a batch, each a kind of 1, the key of the prepared statement and its values.
pub open spec fn batch_statements(statements: Seq<(&str, &[CqlValue])>) -> Coded
    decreases statements.len(),
{
    if statements.len() == 0 {
        Ok(Seq::empty())
    } else {
        match short_string(statements[0].0@) {
            Err(e) => Err(e),
            Ok(key) => match values_bytes(vals(statements[0].1@)) {
                Err(e) => Err(e),
                Ok(values) => after(
                    seq![1u8] + key + values,
                    batch_statements(statements.skip(1)),
                ),
            },
        }
    }
}

/// The body of a BATCH request: a logged batch without flags.
pub open spec fn batch_body(
    session: u64,
    statements: Seq<(&str, &[CqlValue])>,
    consistency: Consistency,
) -> Coded {
    if statements.len() > 0xFFFF {
        Err(CodecError::TooLong(Limit::Statements))
    } else {
        match batch_statements(statements) {
            Err(e) => Err(e),
            Ok(bytes) => Ok(
                be8(session as int) + seq![0u8] + be2(statements.len() as int) + bytes + be2(
                    consistency.code() as int,
                ) + seq![0u8],
            ),
        }
    }
}

/// A request was built as `coded` says.
pub open spec fn built(coded: Coded, result: Result<BytesMut, CodecError>) -> bool {
    match coded {
        Ok(bytes) => result is Ok && mut_contents(result->Ok_0) == bytes,
        Err(e) => result == Err::<BytesMut, CodecError>(e),
    }
}

/// Appends a string behind its 16-bit length.
pub fn write_string(value: &str, buf: &mut BytesMut) -> (r: Result<(), CodecError>)
    ensures
        wrote(short_string(value@), r, mut_contents(*old(buf)), mut_contents(*final(buf))),
{
    let bytes: &[u8] = value.as_bytes();
    let len: usize = bytes.len();
    if len > 0xFFFF {
        return Err(CodecError::TooLong(Limit::String));
    }
    put_u16(buf, len as u16);
    put_slice(buf, bytes);
    assert(mut_contents(*buf) =~= mut_contents(*old(buf)) + (be2(len as int) + bytes@));
    Ok(())
}

/// Appends a string behind the lower 32 bits of its length.
pub fn write_long_string(value: &str, buf: &mut BytesMut)
    ensures
        mut_contents(*final(buf)) == mut_contents(*old(buf)) + long_string(value@),
{
    let bytes: &[u8] = value.as_bytes();
    put_u32(buf, low_u32(bytes.len()));
    put_slice(buf, bytes);
    assert(mut_contents(*buf) =~= mut_contents(*old(buf)) + long_string(value@));
}

/// Encodes the parameters of a CREATE_SESSION request.
pub fn encode_string_map(params: &StringMap) -> (r: Result<BytesMut, CodecError>)
    ensures
        built(string_map_bytes(params.items()), r),
{
    let ghost s = params.items();
    let count: usize = params.len();
    if count > 0xFFFF {
        return Err(CodecError::TooLong(Limit::MapEntries));
    }
    let mut body: BytesMut = new_buffer();
    put_u16(&mut body, count as u16);
    let ghost mut done = Seq::<u8>::empty();
    let ghost head = mut_contents(body);
    let mut i: usize = 0;
    assert(s.skip(0) =~= s);
    proof {
        lemma_after(done, Seq::empty(), map_strings(s));
    }
    while i < count
        invariant
            i <= count,
            count == s.len(),
            count <= 0xFFFF,
            s == params.items(),
            head =~= be2(count as int),
            mut_contents(body) =~= head + done,
            map_strings(s) == after(done, map_strings(s.skip(i as int))),
        decreases count - i,
    {
        let ghost rest = s.skip(i as int);
        assert(rest[0] == s[i as int]);
        assert(rest.skip(1) =~= s.skip(i + 1));
        if let Err(e) = write_string(params.key_at(i).as_str(), &mut body) {
            return Err(e);
        }
        if let Err(e) = write_string(params.value_at(i).as_str(), &mut body) {
            return Err(e);
        }
        proof {
            let more = short_string(rest[0].0)->Ok_0 + short_string(rest[0].1)->Ok_0;
            lemma_after(done, more, map_strings(s.skip(i + 1)));
            done = done + more;
        }
        i = i + 1;
    }
    assert(s.skip(i as int) =~= Seq::empty());
    proof {
        lemma_after(done, Seq::empty(), map_strings(s));
    }
    Ok(body)
}

/// Encodes the body of a QUERY request.
pub fn encode_query_body(session_id: SessionId, query: &str, consistency: Consistency) -> (body:
    BytesMut)
    ensures
        mut_contents(body) == query_body(session_id, query@, consistency),
{
    let mut body: BytesMut = new_buffer();
    put_u64(&mut body, session_id);
    write_long_string(query, &mut body);
    put_u16(&mut body, consistency.as_u16());
    put_u8(&mut body, 0);
    assert(mut_contents(body) =~= query_body(session_id, query@, consistency));
    body
}

/// Encodes the body of a PREPARE request. The key must fit a 16-bit length.
pub fn encode_prepare_body(session_id: SessionId, query: &str, key: &str) -> (body: BytesMut)
    requires
        encode_utf8(key@).len() <= 0xFFFF,
    ensures
        prepare_body(session_id, query@, key@) == Coded::Ok(mut_contents(body)),
{
    let mut body: BytesMut = new_buffer();
    put_u64(&mut body, session_id);
    write_long_string(query, &mut body);
    let _ = write_string(key, &mut body);
    assert(mut_contents(body) =~= be8(session_id as int) + long_string(query@) + short_string(
        key@,
    )->Ok_0);
    body
}

/// Appends values behind their number.
pub fn encode_values(values: &[CqlValue], buf: &mut BytesMut) -> (r: Result<(), CodecError>)
    ensures
        wrote(values_bytes(vals(values@)), r, mut_contents(*old(buf)), mut_contents(*final(buf))),
{
    let ghost s = vals(values@);
    let ghost start = mut_contents(*buf);
    let count: usize = values.len();
    if count > 0xFFFF {
        return Err(CodecError::TooLong(Limit::Values));
    }
    put_u16(buf, count as u16);
    let ghost head = be2(count as int);
    let ghost mut done = Seq::<u8>::empty();
    let mut i: usize = 0;
    assert(s.skip(0) =~= s);
    proof {
        lemma_after(done, Seq::empty(), all_encoded(s));
    }
    while i < count
        invariant
            i <= count,
            count == values@.len(),
            count <= 0xFFFF,
            s == vals(values@),
            head == be2(count as int),
            start == mut_contents(*old(buf)),
            mut_contents(*buf) =~= start + head + done,
            all_encoded(s) == after(done, all_encoded(s.skip(i as int))),
        decreases count - i,
    {
        let ghost rest = s.skip(i as int);
        proof {
            reveal(all_encoded);
        }
        assert(rest[0] == values@[i as int]@);
        assert(rest.skip(1) =~= s.skip(i + 1));
        if let Err(e) = encode_value(&values[i], buf) {
            return Err(e);
        }
        proof {
            let more = encoded(rest[0])->Ok_0;
            lemma_after(done, more, all_encoded(s.skip(i + 1)));
            done = done + more;
        }
        i = i + 1;
    }
    assert(s.skip(i as int) =~= Seq::empty());
    proof {
        reveal(all_encoded);
        lemma_after(done, Seq::empty(), all_encoded(s));
        assert(start + head + done =~= start + (head + done));
    }
    Ok(())
}

/// Encodes the body of an EXECUTE request.
pub fn encode_execute_body(
    session_id: SessionId,
    key: &str,
    consistency: Consistency,
    values: &[CqlValue],
) -> (r: Result<BytesMut, CodecError>)
    ensures
        built(execute_body(session_id, key@, consistency, vals(values@)), r),
{
    let mut body: BytesMut = new_buffer();
    put_u64(&mut body, session_id);
    if let Err(e) = write_string(key, &mut body) {
        return Err(e);
    }
    put_u16(&mut body, consistency.as_u16());
    let ghost head = be8(session_id as int) + short_string(key@)->Ok_0 + be2(
        consistency.code() as int,
    );
    assert(mut_contents(body) =~= head);
    if values.len() == 0 {
        put_u8(&mut body, 0);
        assert(mut_contents(body) =~= head + seq![0u8]);
        return Ok(body);
    }
    put_u8(&mut body, 1);
    assert(mut_contents(body) =~= head + seq![1u8]);
    match encode_values(values, &mut body) {
        Ok(()) => Ok(body),
        Err(e) => Err(e),
    }
}

/// Appends the statements of a batch.
fn encode_statements(statements: &[(&str, &[CqlValue])], buf: &mut BytesMut) -> (r: Result<
    (),
    CodecError,
>)
    ensures
        wrote(
            batch_statements(statements@),
            r,
            mut_contents(*old(buf)),
            mut_contents(*final(buf)),
        ),
{
    let ghost s = statements@;
    let ghost start = mut_contents(*buf);
    let ghost mut done = Seq::<u8>::empty();
    let mut i: usize = 0;
    assert(s.skip(0) =~= s);
    proof {
        lemma_after(done, Seq::empty(), batch_statements(s));
    }
    while i < statements.len()
        invariant
            i <= statements@.len(),
            s == statements@,
            start == mut_contents(*old(buf)),
            mut_contents(*buf) =~= start + done,
            batch_statements(s) == after(done, batch_statements(s.skip(i as int))),
        decreases statements@.len() - i,
    {
        let ghost rest = s.skip(i as int);
        assert(rest[0] == s[i as int]);
        assert(rest.skip(1) =~= s.skip(i + 1));
        put_u8(buf, 1);
        if let Err(e) = write_string(statements[i].0, buf) {
            return Err(e);
        }
        if let Err(e) = encode_values(statements[i].1, buf) {
            return Err(e);
        }
        proof {
            let more = seq![1u8] + short_string(rest[0].0@)->Ok_0 + values_bytes(
                vals(rest[0].1@),
            )->Ok_0;
            lemma_after(done, more, batch_statements(s.skip(i + 1)));
            done = done + more;
        }
        i = i + 1;
    }
    assert(s.skip(i as int) =~= Seq::empty());
    proof {
        lemma_after(done, Seq::empty(), batch_statements(s));
    }
    Ok(())
}

/// Encodes the body of a BATCH request.
pub fn encode_batch_body(
    session_id: SessionId,
    statements: &[(&str, &[CqlValue])],
    consistency: Consistency,
) -> (r: Result<BytesMut, CodecError>)
    ensures
        built(batch_body(session_id, statements@, consistency), r),
{
    let n_statements: usize = statements.len();
    if n_statements > 0xFFFF {
        return Err(CodecError::TooLong(Limit::Statements));
    }
    let mut body: BytesMut = new_buffer();
    put_u64(&mut body, session_id);
    put_u8(&mut body, 0);
    put_u16(&mut body, n_statements as u16);
    if let Err(e) = encode_statements(statements, &mut body) {
        return Err(e);
    }
    put_u16(&mut body, consistency.as_u16());
    put_u8(&mut body, 0);
    assert(mut_contents(body) =~= batch_body(session_id, statements@, consistency)->Ok_0);
    Ok(body)
}

/// Why a reply does not give what was asked for.
#[derive(Debug)]
pub enum ReplyError {
    /// The adapter answered with an error; this is its message.
    Failed(String),
    /// The reply has another opcode than the request asks for.
    UnexpectedOpcode(Opcode),
    /// The body has too few bytes.
    BodyTooShort(usize),
    /// The body has another number of bytes than the reply asks for.
    BodyLength(usize),
    /// The body cannot be decoded.
    Codec(CodecError),
}

/// The driver's latency in nanoseconds stands in the last eight bytes of a body of twelve and more.
pub open spec fn split_latency(body: Seq<u8>) -> (Seq<u8>, Option<u64>) {
    if body.len() >= 12 {
        (body.take(body.len() - 8), Some(un8(body.skip(body.len() - 8)) as u64))
    } else {
        (body, None)
    }
}

/// What a result of some kind says.
pub open spec fn result_of(body: Seq<u8>) -> Result<Outcome, CodecError> {
    match int_at(body) {
        Err(e) => Err(e),
        Ok((kind, rest)) => if kind == 1 || kind == 4 {
            Ok(Outcome::Void)
        } else if kind == 2 {
            match rows_result_at(rest) {
                Ok((outcome, _)) => Ok(outcome),
                Err(e) => Err(e),
            }
        } else if kind == 3 {
            match lossy_string_at(rest) {
                Ok(_) => Ok(Outcome::Void),
                Err(e) => Err(e),
            }
        } else if kind == 5 {
            match lossy_string_at(rest) {
                Ok((change, _)) => Ok(Outcome::SchemaChange(change)),
                Err(e) => Err(e),
            }
        } else {
            Err(CodecError::UnknownResultKind(kind))
        },
    }
}

/// The latency at the end of a body.
fn latency_of(body: &[u8]) -> (latency: Option<u64>)
    ensures
        latency == split_latency(body@).1,
{
    let len: usize = body.len();
    if len >= 12 {
        let (_, last): (&[u8], &[u8]) = body.split_at(len - 8);
        assert(last@ =~= body@.skip(len - 8));
        Some(read_be8(last))
    } else {
        None
    }
}

/// Decodes a result without its latency.
fn decode_outcome(body: &[u8]) -> (r: Result<QueryResult, CodecError>)
    ensures
        match result_of(body@) {
            Ok(outcome) => r is Ok && r->Ok_0@ == outcome,
            Err(e) => r == Err::<QueryResult, CodecError>(e),
        },
{
    let mut slice: &[u8] = body;
    let kind: i32 = match read_int(&mut slice) {
        Ok(kind) => kind,
        Err(e) => {
            return Err(e);
        },
    };
    match kind {
        0x0001 => Ok(QueryResult::Void),
        0x0002 => decode_rows_result(&mut slice),
        0x0003 => match read_lossy_string(&mut slice) {
            Ok(_) => Ok(QueryResult::Void),
            Err(e) => Err(e),
        },
        0x0004 => Ok(QueryResult::Void),
        0x0005 => match read_lossy_string(&mut slice) {
            Ok(change_type) => Ok(QueryResult::SchemaChange { change_type }),
            Err(e) => Err(e),
        },
        _ => Err(CodecError::UnknownResultKind(kind)),
    }
}

/// Decodes the reply to a QUERY or EXECUTE request: the result, and the
/// driver's latency in nanoseconds where the body holds it.
pub fn decode_result(frame: &Frame) -> (r: Result<(QueryResult, Option<u64>), ReplyError>)
    ensures
        match frame.header.opcode {
            Opcode::Error => r matches Err(ReplyError::Failed(message)) && message@
                == error_message_spec(contents(frame.body)),
            Opcode::Result => if contents(frame.body).len() < 4 {
                r matches Err(ReplyError::BodyTooShort(n)) && n == contents(frame.body).len()
            } else {
                match result_of(split_latency(contents(frame.body)).0) {
                    Ok(outcome) => r is Ok && r->Ok_0.0@ == outcome && r->Ok_0.1
                        == split_latency(contents(frame.body)).1,
                    Err(e) => r matches Err(ReplyError::Codec(e2)) && e2 == e,
                }
            },
            opcode => r matches Err(ReplyError::UnexpectedOpcode(o)) && o == opcode,
        },
{
    if frame.header.opcode == Opcode::Error {
        return Err(ReplyError::Failed(decode_error_message(&frame.body)));
    }
    if frame.header.opcode != Opcode::Result {
        return Err(ReplyError::UnexpectedOpcode(frame.header.opcode));
    }
    let body: &[u8] = bytes_slice(&frame.body);
    let len: usize = body.len();
    if len < 4 {
        return Err(ReplyError::BodyTooShort(len));
    }
    let latency: Option<u64> = latency_of(body);
    let result_body: &[u8] = if len >= 12 {
        let (front, _): (&[u8], &[u8]) = body.split_at(len - 8);
        assert(front@ =~= body@.take(len - 8));
        front
    } else {
        body
    };
    match decode_outcome(result_body) {
        Ok(result) => Ok((result, latency)),
        Err(e) => Err(ReplyError::Codec(e)),
    }
}

/// Decodes the reply to a CREATE_SESSION request: the id of the new session.
pub fn decode_session_created(frame: &Frame) -> (r: Result<SessionId, ReplyError>)
    ensures
        match frame.header.opcode {
            Opcode::Error => r matches Err(ReplyError::Failed(message)) && message@
                == error_message_spec(contents(frame.body)),
            Opcode::SessionCreated => if contents(frame.body).len() < 8 {
                r matches Err(ReplyError::BodyTooShort(n)) && n == contents(frame.body).len()
            } else {
                r matches Ok(id) && id == un8(contents(frame.body))
            },
            opcode => r matches Err(ReplyError::UnexpectedOpcode(o)) && o == opcode,
        },
{
    if frame.header.opcode == Opcode::Error {
        return Err(ReplyError::Failed(decode_error_message(&frame.body)));
    }
    if frame.header.opcode != Opcode::SessionCreated {
        return Err(ReplyError::UnexpectedOpcode(frame.header.opcode));
    }
    let body: &[u8] = bytes_slice(&frame.body);
    if body.len() < 8 {
        return Err(ReplyError::BodyTooShort(body.len()));
    }
    Ok(read_be8(body))
}

/// Decodes the reply to a PREPARE request: anything but an error is a success.
pub fn decode_prepared(frame: &Frame) -> (r: Result<(), ReplyError>)
    ensures
        match frame.header.opcode {
            Opcode::Error => r matches Err(ReplyError::Failed(message)) && message@
                == error_message_spec(contents(frame.body)),
            _ => r is Ok,
        },
{
    if frame.header.opcode == Opcode::Error {
        return Err(ReplyError::Failed(decode_error_message(&frame.body)));
    }
    Ok(())
}

/// Decodes the reply to a BATCH request: the driver's latency in nanoseconds where the body holds it.
pub fn decode_batch_result(frame: &Frame) -> (r: Result<Option<u64>, ReplyError>)
    ensures
        match frame.header.opcode {
            Opcode::Error => r matches Err(ReplyError::Failed(message)) && message@
                == error_message_spec(contents(frame.body)),
            _ => r matches Ok(latency) && latency == split_latency(contents(frame.body)).1,
        },
{
    if frame.header.opcode == Opcode::Error {
        return Err(ReplyError::Failed(decode_error_message(&frame.body)));
    }
    Ok(latency_of(bytes_slice(&frame.body)))
}

/// A latency behind a result is taken off again, and the result is what it was.
pub proof fn law_latency_round_trip(result: Seq<u8>, latency: u64)
    requires
        result.len() >= 4,
    ensures
        split_latency(result + be8(latency as int)) == (result, Some(latency)),
{
    let body = result + be8(latency as int);
    lemma_be8(latency as int, Seq::empty());
    assert(be8(latency as int) + Seq::<u8>::empty() =~= be8(latency as int));
    assert(body.take(body.len() - 8) =~= result);
    assert(body.skip(body.len() - 8) =~= be8(latency as int));
}

/// A result says by its kind what it is: nothing, rows, a keyspace, a
/// prepared statement or a change of the schema; other kinds are none.
pub proof fn law_result_is_told_by_its_kind(kind: i32, text: Seq<char>, rest: Seq<u8>)
    requires
        encode_utf8(text).len() <= 0xFFFF,
    ensures
        result_of(be4(1) + rest) == Ok::<Outcome, CodecError>(Outcome::Void),
        result_of(be4(2) + rest) == (match rows_result_at(rest) {
            Ok((outcome, _)) => Ok(outcome),
            Err(e) => Err(e),
        }),
        result_of(be4(3) + (short_string(text)->Ok_0 + rest)) == Ok::<Outcome, CodecError>(
            Outcome::Void,
        ),
        result_of(be4(4) + rest) == Ok::<Outcome, CodecError>(Outcome::Void),
        result_of(be4(5) + (short_string(text)->Ok_0 + rest)) == Ok::<Outcome, CodecError>(
            Outcome::SchemaChange(text),
        ),
        !(1 <= kind <= 5) ==> result_of(be4(kind as int) + rest) == Err::<Outcome, CodecError>(
            CodecError::UnknownResultKind(kind),
        ),
{
    let bytes = encode_utf8(text);
    let named = short_string(text)->Ok_0 + rest;
    lemma_be4(1, rest);
    lemma_be4(2, rest);
    lemma_be4(3, named);
    lemma_be4(4, rest);
    lemma_be4(5, named);
    lemma_be4(kind as int, rest);
    assert(named =~= be2(bytes.len() as int) + (bytes + rest));
    lemma_be2(bytes.len() as int, bytes + rest);
    assert((bytes + rest).take(bytes.len() as int) =~= bytes);
    assert((bytes + rest).skip(bytes.len() as int) =~= rest);
    lemma_utf8_round_trip(text);
}

} // verus!
