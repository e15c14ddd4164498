//! The requests that the adapter serves.

use super::convert::{raws, Raw, RawValue};
use super::messages::{codec_message, codec_text};
use super::protocol::Frame;
use crate::error::{CodecError, Part};
use crate::ipc::decode::{after_at, lemma_after_at};
use crate::number::{decimal, decimal_text, hex, hex_text};
use crate::reader::{
    data_at, did_read, did_read_string, int_at, long_at, read_data, read_int, read_long,
    read_short, read_utf8_string, short_at, string_at, string_left, At,
};
use crate::string_map::{to_map, StringMap};
use crate::text::{both, from_utf8, joined};
use crate::value::Consistency;
use crate::wire::{
    bytes_slice, clone_bytes, contents, read_be2, read_be4, read_be8, signed4, slice_bytes,
    to_i32, un2, un4, un8,
};
use bytes::Bytes;
use vstd::prelude::*;
use vstd::string::*;
use vstd::utf8::{decode_utf8, valid_utf8};

verus! {

broadcast use crate::wire::group_be;

/// The requests that carry a body of their own.
#[derive(Debug, Clone, Copy, PartialEq, Eq, Structural)]
pub enum Request {
    Query,
    Prepare,
    Execute,
    Batch,
}

/// Why a request cannot be parsed.
#[derive(Debug, Clone, Copy, PartialEq, Eq, Structural)]
pub enum ParseError {
    SessionId(Request),
    QueryString(Request),
    StatementKey(Request),
    Consistency(Request),
    MissingFlags(Request),
    UnsupportedFlags(u8),
    MissingBatchType,
    StatementCount,
    MissingStatementKind,
    UnsupportedStatementKind(u8),
    /// The bind values cannot be read.
    Values(CodecError),
}

impl Request {
    /// The request's name.
    pub open spec fn label(self) -> Seq<char> {
        match self {
            Request::Query => "QUERY"@,
            Request::Prepare => "PREPARE"@,
            Request::Execute => "EXECUTE"@,
            Request::Batch => "BATCH"@,
        }
    }

    /// The request's name.
    pub fn name(self) -> (r: &'static str)
        ensures
            r@ == self.label(),
    {
        match self {
            Request::Query => "QUERY",
            Request::Prepare => "PREPARE",
            Request::Execute => "EXECUTE",
            Request::Batch => "BATCH",
        }
    }
}

impl ParseError {
    /// What is said of the error.
    pub open spec fn text(self) -> Seq<char> {
        match self {
            ParseError::SessionId(r) => "failed to decode session id from "@ + r.label()
                + " body"@,
            ParseError::QueryString(r) => "failed to decode query string from "@ + r.label()
                + " body"@,
            ParseError::StatementKey(r) => "failed to decode statement key from "@ + r.label()
                + " body"@,
            ParseError::Consistency(r) => "failed to read consistency from "@ + r.label()
                + " body"@,
            ParseError::MissingFlags(r) => "missing flags in "@ + r.label() + " body"@,
            ParseError::UnsupportedFlags(flags) => "unsupported QUERY flags: "@ + "0x"@ + hex(
                flags as nat,
            ),
            ParseError::MissingBatchType => "missing batch type in BATCH body"@,
            ParseError::StatementCount => "failed to read statement count from BATCH body"@,
            ParseError::MissingStatementKind => "missing statement kind in BATCH body"@,
            ParseError::UnsupportedStatementKind(kind) =>
                "only prepared statements (kind=1) are supported in batch, got kind="@
                + decimal(kind as nat),
            ParseError::Values(e) => codec_text(e),
        }
    }

    /// What is said of the error.
    pub fn message(&self) -> (text: String)
        ensures
            text@ == self.text(),
    {
        match self {
            ParseError::SessionId(r) => joined(
                "failed to decode session id from ",
                r.name(),
                " body",
            ),
            ParseError::QueryString(r) => joined(
                "failed to decode query string from ",
                r.name(),
                " body",
            ),
            ParseError::StatementKey(r) => joined(
                "failed to decode statement key from ",
                r.name(),
                " body",
            ),
            ParseError::Consistency(r) => joined(
                "failed to read consistency from ",
                r.name(),
                " body",
            ),
            ParseError::MissingFlags(r) => joined("missing flags in ", r.name(), " body"),
            ParseError::UnsupportedFlags(flags) => joined(
                "unsupported QUERY flags: ",
                "0x",
                hex_text(*flags as u64).as_str(),
            ),
            ParseError::MissingBatchType => "missing batch type in BATCH body".to_owned(),
            ParseError::StatementCount =>
                "failed to read statement count from BATCH body".to_owned(),
            ParseError::MissingStatementKind => "missing statement kind in BATCH body".to_owned(),
            ParseError::UnsupportedStatementKind(kind) => both(
                "only prepared statements (kind=1) are supported in batch, got kind=",
                decimal_text(*kind as u64).as_str(),
            ),
            ParseError::Values(e) => codec_message(*e),
        }
    }
}

/// A QUERY request.
#[derive(Debug)]
pub struct ParsedQuery {
    pub session_id: u64,
    pub query: String,
    pub consistency: Consistency,
}

/// A PREPARE request.
#[derive(Debug)]
pub struct ParsedPrepare {
    pub session_id: u64,
    pub query: String,
    pub statement_key: String,
}

/// An EXECUTE request.
#[derive(Debug)]
pub struct ParsedExecute {
    pub session_id: u64,
    pub statement_key: String,
    pub consistency: Consistency,
    pub raw_values: Vec<RawValue>,
}

/// A single statement in a batch.
#[derive(Debug)]
pub struct BatchStatement {
    pub statement_key: String,
    pub raw_values: Vec<RawValue>,
}

/// A BATCH request.
#[derive(Debug)]
pub struct ParsedBatch {
    pub session_id: u64,
    pub batch_type: u8,
    pub statements: Vec<BatchStatement>,
    pub consistency: Consistency,
}

/// The mathematical values of the parsed requests.
pub struct QueryReq {
    pub session_id: u64,
    pub query: Seq<char>,
    pub consistency: Consistency,
}

pub struct PrepareReq {
    pub session_id: u64,
    pub query: Seq<char>,
    pub statement_key: Seq<char>,
}

pub struct ExecuteReq {
    pub session_id: u64,
    pub statement_key: Seq<char>,
    pub consistency: Consistency,
    pub values: Seq<Raw>,
}

pub struct BatchReq {
    pub session_id: u64,
    pub batch_type: u8,
    pub statements: Seq<(Seq<char>, Seq<Raw>)>,
    pub consistency: Consistency,
}

impl View for ParsedQuery {
    type V = QueryReq;

    open spec fn view(&self) -> QueryReq {
        QueryReq {
            session_id: self.session_id,
            query: self.query@,
            consistency: self.consistency,
        }
    }
}

impl View for ParsedPrepare {
    type V = PrepareReq;

    open spec fn view(&self) -> PrepareReq {
        PrepareReq {
            session_id: self.session_id,
            query: self.query@,
            statement_key: self.statement_key@,
        }
    }
}

impl View for ParsedExecute {
    type V = ExecuteReq;

    open spec fn view(&self) -> ExecuteReq {
        ExecuteReq {
            session_id: self.session_id,
            statement_key: self.statement_key@,
            consistency: self.consistency,
            values: raws(self.raw_values@),
        }
    }
}

/// The values of the statements of a batch.
pub open spec fn statements_of(s: Seq<BatchStatement>) -> Seq<(Seq<char>, Seq<Raw>)> {
    s.map_values(|b: BatchStatement| (b.statement_key@, raws(b.raw_values@)))
}

impl View for ParsedBatch {
    type V = BatchReq;

    open spec fn view(&self) -> BatchReq {
        BatchReq {
            session_id: self.session_id,
            batch_type: self.batch_type,
            statements: statements_of(self.statements@),
            consistency: self.consistency,
        }
    }
}

/// The text behind its 32-bit length, which must be UTF-8.
pub open spec fn long_string_at(s: Seq<u8>) -> At<Seq<char>> {
    match int_at(s) {
        Err(e) => Err(e),
        Ok((len, rest)) => if len < 0 {
            Err(CodecError::UnexpectedEof(Part::StringBody))
        } else {
            match data_at(rest, len as nat, Part::StringBody) {
                Err(e) => Err(e),
                Ok((data, rest)) => if valid_utf8(data) {
                    Ok((decode_utf8(data), rest))
                } else {
                    Err(CodecError::InvalidUtf8)
                },
            }
        },
    }
}

/// Reads a text behind its 32-bit length.
fn read_long_string(slice: &mut &[u8]) -> (r: Result<String, CodecError>)
    ensures
        did_read_string(long_string_at(old(slice)@), r, final(slice)@),
{
    let len: i32 = match read_int(slice) {
        Ok(len) => len,
        Err(e) => {
            return Err(e);
        },
    };
    if len < 0 {
        return Err(CodecError::UnexpectedEof(Part::StringBody));
    }
    match read_data(slice, len as usize, Part::StringBody) {
        Ok(data) => match from_utf8(data) {
            Some(text) => Ok(text),
            None => Err(CodecError::InvalidUtf8),
        },
        Err(e) => Err(e),
    }
}

/// Reads a string behind its 16-bit length.
pub fn read_string(slice: &mut &[u8]) -> (r: Result<String, CodecError>)
    ensures
        did_read_string(string_at(old(slice)@), r, final(slice)@),
        r is Err ==> final(slice)@ == string_left(old(slice)@),
{
    read_utf8_string(slice)
}

/// The next `n` pairs of strings.
pub open spec fn pairs_at(s: Seq<u8>, n: nat) -> At<Seq<(Seq<char>, Seq<char>)>>
    decreases n,
{
    if n == 0 {
        Ok((Seq::empty(), s))
    } else {
        match string_at(s) {
            Err(e) => Err(e),
            Ok((key, s)) => match string_at(s) {
                Err(e) => Err(e),
                Ok((value, s)) => match pairs_at(s, (n - 1) as nat) {
                    Err(e) => Err(e),
                    Ok((more, s)) => Ok((seq![(key, value)] + more, s)),
                },
            },
        }
    }
}

/// The map of strings at the front, behind the number of its entries. Of two
/// entries with one key the later counts.
pub open spec fn string_map_at(s: Seq<u8>) -> At<Map<Seq<char>, Seq<char>>> {
    match short_at(s) {
        Err(e) => Err(e),
        Ok((n, rest)) => match pairs_at(rest, n as nat) {
            Err(e) => Err(e),
            Ok((pairs, rest)) => Ok((to_map(pairs), rest)),
        },
    }
}

/// The bytes that are left when one of the next `n` pairs of strings cannot be read.
pub open spec fn pairs_left(s: Seq<u8>, n: nat) -> Seq<u8>
    decreases n,
{
    if n == 0 {
        s
    } else {
        match string_at(s) {
            Err(_) => string_left(s),
            Ok((_, s)) => match string_at(s) {
                Err(_) => string_left(s),
                Ok((_, s)) => pairs_left(s, (n - 1) as nat),
            },
        }
    }
}

/// The bytes that are left when a map of strings cannot be read.
pub open spec fn string_map_left(s: Seq<u8>) -> Seq<u8> {
    match short_at(s) {
        Err(_) => s,
        Ok((n, rest)) => pairs_left(rest, n as nat),
    }
}

/// The map of the pairs that were read and those that are still to be read.
proof fn lemma_to_map_push(items: Seq<(Seq<char>, Seq<char>)>, item: (Seq<char>, Seq<char>))
    ensures
        to_map(items.push(item)) == to_map(items).insert(item.0, item.1),
{
    assert(items.push(item).drop_last() =~= items);
}

/// Reads a map of strings.
pub fn read_string_map(slice: &mut &[u8]) -> (r: Result<StringMap, CodecError>)
    ensures
        match string_map_at(old(slice)@) {
            Ok((map, rest)) => r is Ok && r->Ok_0@ == map && final(slice)@ == rest,
            Err(e) => r matches Err(e2) && e2 == e,
        },
        r is Err ==> final(slice)@ == string_map_left(old(slice)@),
{
    let count: u16 = match read_short(slice) {
        Ok(n) => n,
        Err(e) => {
            return Err(e);
        },
    };
    let ghost start = slice@;
    let ghost all = pairs_at(start, count as nat);
    let mut map: StringMap = StringMap::new();
    let ghost mut done = Seq::<(Seq<char>, Seq<char>)>::empty();
    let mut i: u16 = 0;
    proof {
        lemma_after_at(done, (Seq::empty(), Seq::empty()), all, start);
    }
    while i < count
        invariant
            i <= count,
            map@ == to_map(done),
            all == pairs_at(start, count as nat),
            all == after_at(done, pairs_at(slice@, (count - i) as nat)),
            string_map_left(old(slice)@) == pairs_left(slice@, (count - i) as nat),
            string_map_at(old(slice)@) == (match all {
                Ok((pairs, rest)) => At::Ok((to_map(pairs), rest)),
                Err(e) => Err(e),
            }),
        decreases count - i,
    {
        let key: String = match read_string(slice) {
            Ok(v) => v,
            Err(e) => {
                return Err(e);
            },
        };
        let value: String = match read_string(slice) {
            Ok(v) => v,
            Err(e) => {
                return Err(e);
            },
        };
        proof {
            lemma_after_at(done, (key@, value@), pairs_at(slice@, (count - i - 1) as nat), start);
            lemma_to_map_push(done, (key@, value@));
            done = done.push((key@, value@));
        }
        map.insert(key, value);
        i = i + 1;
    }
    proof {
        lemma_after_at(done, (Seq::empty(), Seq::empty()), all, slice@);
    }
    Ok(map)
}

/// What a QUERY request asks for. Its flags must be 0.
pub open spec fn query_of(body: Seq<u8>) -> Result<QueryReq, ParseError> {
    match long_at(body) {
        Err(_) => Err(ParseError::SessionId(Request::Query)),
        Ok((session_id, s)) => match long_string_at(s) {
            Err(_) => Err(ParseError::QueryString(Request::Query)),
            Ok((query, s)) => match short_at(s) {
                Err(_) => Err(ParseError::Consistency(Request::Query)),
                Ok((level, s)) => if s.len() == 0 {
                    Err(ParseError::MissingFlags(Request::Query))
                } else if s[0] != 0 {
                    Err(ParseError::UnsupportedFlags(s[0]))
                } else {
                    Ok(QueryReq { session_id, query, consistency: Consistency::of_code(level) })
                },
            },
        },
    }
}

/// Parses a QUERY request.
pub fn parse_query_frame(frame: &Frame) -> (r: Result<ParsedQuery, ParseError>)
    ensures
        match query_of(contents(frame.body)) {
            Ok(q) => r is Ok && r->Ok_0@ == q,
            Err(e) => r == Err::<ParsedQuery, ParseError>(e),
        },
{
    let mut slice: &[u8] = bytes_slice(&frame.body);
    let session_id: u64 = match read_long(&mut slice) {
        Ok(v) => v,
        Err(_) => {
            return Err(ParseError::SessionId(Request::Query));
        },
    };
    let query: String = match read_long_string(&mut slice) {
        Ok(v) => v,
        Err(_) => {
            return Err(ParseError::QueryString(Request::Query));
        },
    };
    let level: u16 = match read_short(&mut slice) {
        Ok(v) => v,
        Err(_) => {
            return Err(ParseError::Consistency(Request::Query));
        },
    };
    if slice.len() == 0 {
        return Err(ParseError::MissingFlags(Request::Query));
    }
    let flags: u8 = slice[0];
    if flags != 0 {
        return Err(ParseError::UnsupportedFlags(flags));
    }
    Ok(ParsedQuery { session_id, query, consistency: Consistency::from_u16_or_one(level) })
}

/// What a PREPARE request asks for.
pub open spec fn prepare_of(body: Seq<u8>) -> Result<PrepareReq, ParseError> {
    match long_at(body) {
        Err(_) => Err(ParseError::SessionId(Request::Prepare)),
        Ok((session_id, s)) => match long_string_at(s) {
            Err(_) => Err(ParseError::QueryString(Request::Prepare)),
            Ok((query, s)) => match string_at(s) {
                Err(_) => Err(ParseError::StatementKey(Request::Prepare)),
                Ok((statement_key, _)) => Ok(PrepareReq { session_id, query, statement_key }),
            },
        },
    }
}

/// Parses a PREPARE request.
pub fn parse_prepare_frame(frame: &Frame) -> (r: Result<ParsedPrepare, ParseError>)
    ensures
        match prepare_of(contents(frame.body)) {
            Ok(p) => r is Ok && r->Ok_0@ == p,
            Err(e) => r == Err::<ParsedPrepare, ParseError>(e),
        },
{
    let mut slice: &[u8] = bytes_slice(&frame.body);
    let session_id: u64 = match read_long(&mut slice) {
        Ok(v) => v,
        Err(_) => {
            return Err(ParseError::SessionId(Request::Prepare));
        },
    };
    let query: String = match read_long_string(&mut slice) {
        Ok(v) => v,
        Err(_) => {
            return Err(ParseError::QueryString(Request::Prepare));
        },
    };
    match read_string(&mut slice) {
        Ok(statement_key) => Ok(ParsedPrepare { session_id, query, statement_key }),
        Err(_) => Err(ParseError::StatementKey(Request::Prepare)),
    }
}

/// A reader over shared bytes: what it takes stays shared.
struct BytesReader {
    data: Bytes,
    pos: usize,
}

/// The signed 32-bit number at the front, as the reader finds it.
pub open spec fn i32_at(s: Seq<u8>) -> At<i32> {
    if s.len() < 4 {
        Err(CodecError::UnexpectedEof(Part::I32))
    } else {
        Ok((signed4(un4(s)) as i32, s.skip(4)))
    }
}

/// The 16-bit number at the front, as the reader finds it.
pub open spec fn u16_at(s: Seq<u8>) -> At<u16> {
    if s.len() < 2 {
        Err(CodecError::UnexpectedEof(Part::U16))
    } else {
        Ok((un2(s) as u16, s.skip(2)))
    }
}

/// The 64-bit number at the front, as the reader finds it.
pub open spec fn u64_at(s: Seq<u8>) -> At<u64> {
    if s.len() < 8 {
        Err(CodecError::UnexpectedEof(Part::I64))
    } else {
        Ok((un8(s) as u64, s.skip(8)))
    }
}

/// The byte at the front, as the reader finds it.
pub open spec fn u8_at(s: Seq<u8>) -> At<u8> {
    if s.len() < 1 {
        Err(CodecError::UnexpectedEof(Part::U8))
    } else {
        Ok((s[0], s.skip(1)))
    }
}

/// The first `n` bytes, as the reader finds them.
pub open spec fn bytes_at(s: Seq<u8>, n: nat) -> At<Seq<u8>> {
    data_at(s, n, Part::Bytes(n as usize, s.len() as usize))
}

/// The string behind its 16-bit length, as the reader finds it.
pub open spec fn text_at(s: Seq<u8>) -> At<Seq<char>> {
    match u16_at(s) {
        Err(e) => Err(e),
        Ok((len, rest)) => match bytes_at(rest, len as nat) {
            Err(e) => Err(e),
            Ok((data, rest)) => if valid_utf8(data) {
                Ok((decode_utf8(data), rest))
            } else {
                Err(CodecError::InvalidUtf8)
            },
        },
    }
}

impl BytesReader {
    /// The bytes that are still to be read.
    spec fn rest(self) -> Seq<u8> {
        contents(self.data).skip(self.pos as int)
    }

    spec fn wf(self) -> bool {
        self.pos <= contents(self.data).len()
    }

    fn new(data: Bytes) -> (reader: BytesReader)
        ensures
            reader.wf(),
            reader.rest() == contents(data),
    {
        let reader: BytesReader = BytesReader { data, pos: 0 };
        assert(reader.rest() =~= contents(data));
        reader
    }

    fn remaining(&self) -> (n: usize)
        requires
            self.wf(),
        ensures
            n == self.rest().len(),
            self.pos + n <= usize::MAX,
    {
        bytes_slice(&self.data).len() - self.pos
    }

    /// Takes the next bytes, shared.
    fn take_bytes(&mut self, n: usize) -> (r: Result<Bytes, CodecError>)
        requires
            old(self).wf(),
        ensures
            final(self).wf(),
            match bytes_at(old(self).rest(), n as nat) {
                Ok((data, rest)) => r is Ok && contents(r->Ok_0) == data && final(self).rest()
                    == rest,
                Err(e) => r == Err::<Bytes, CodecError>(e),
            },
    {
        let have: usize = self.remaining();
        if have < n {
            return Err(CodecError::UnexpectedEof(Part::Bytes(n, have)));
        }
        let ghost before = self.rest();
        let slice: Bytes = slice_bytes(&self.data, self.pos, self.pos + n);
        self.pos = self.pos + n;
        assert(contents(slice) =~= before.take(n as int));
        assert(self.rest() =~= before.skip(n as int));
        Ok(slice)
    }

    fn read_u8(&mut self) -> (r: Result<u8, CodecError>)
        requires
            old(self).wf(),
        ensures
            final(self).wf(),
            did_read(u8_at(old(self).rest()), r, final(self).rest()),
    {
        if self.remaining() < 1 {
            return Err(CodecError::UnexpectedEof(Part::U8));
        }
        let ghost before = self.rest();
        let v: u8 = bytes_slice(&self.data)[self.pos];
        self.pos = self.pos + 1;
        assert(self.rest() =~= before.skip(1));
        Ok(v)
    }

    fn read_u16(&mut self) -> (r: Result<u16, CodecError>)
        requires
            old(self).wf(),
        ensures
            final(self).wf(),
            did_read(u16_at(old(self).rest()), r, final(self).rest()),
    {
        if self.remaining() < 2 {
            return Err(CodecError::UnexpectedEof(Part::U16));
        }
        let ghost before = self.rest();
        let (_, tail): (&[u8], &[u8]) = bytes_slice(&self.data).split_at(self.pos);
        assert(tail@ =~= before);
        let v: u16 = read_be2(tail);
        self.pos = self.pos + 2;
        assert(self.rest() =~= before.skip(2));
        Ok(v)
    }

    fn read_i32(&mut self) -> (r: Result<i32, CodecError>)
        requires
            old(self).wf(),
        ensures
            final(self).wf(),
            did_read(i32_at(old(self).rest()), r, final(self).rest()),
    {
        if self.remaining() < 4 {
            return Err(CodecError::UnexpectedEof(Part::I32));
        }
        let ghost before = self.rest();
        let (_, tail): (&[u8], &[u8]) = bytes_slice(&self.data).split_at(self.pos);
        assert(tail@ =~= before);
        let v: i32 = to_i32(read_be4(tail));
        self.pos = self.pos + 4;
        assert(self.rest() =~= before.skip(4));
        Ok(v)
    }

    /// Reads a 64-bit number; session ids are unsigned.
    fn read_u64(&mut self) -> (r: Result<u64, CodecError>)
        requires
            old(self).wf(),
        ensures
            final(self).wf(),
            did_read(u64_at(old(self).rest()), r, final(self).rest()),
    {
        if self.remaining() < 8 {
            return Err(CodecError::UnexpectedEof(Part::I64));
        }
        let ghost before = self.rest();
        let (_, tail): (&[u8], &[u8]) = bytes_slice(&self.data).split_at(self.pos);
        assert(tail@ =~= before);
        let v: u64 = read_be8(tail);
        self.pos = self.pos + 8;
        assert(self.rest() =~= before.skip(8));
        Ok(v)
    }

    fn read_string(&mut self) -> (r: Result<String, CodecError>)
        requires
            old(self).wf(),
        ensures
            final(self).wf(),
            did_read_string(text_at(old(self).rest()), r, final(self).rest()),
    {
        let len: u16 = match self.read_u16() {
            Ok(len) => len,
            Err(e) => {
                return Err(e);
            },
        };
        match self.take_bytes(len as usize) {
            Ok(bytes) => match from_utf8(bytes_slice(&bytes)) {
                Some(text) => Ok(text),
                None => Err(CodecError::InvalidUtf8),
            },
            Err(e) => Err(e),
        }
    }
}

/// The bind value at the front: its type code, and data behind their length or a null.
pub open spec fn raw_value_at(s: Seq<u8>) -> At<Raw> {
    match u16_at(s) {
        Err(e) => Err(e),
        Ok((type_code, s)) => match i32_at(s) {
            Err(e) => Err(e),
            Ok((len, s)) => if len < 0 {
                Ok((Raw::Null(type_code), s))
            } else {
                match bytes_at(s, len as nat) {
                    Err(e) => Err(e),
                    Ok((data, s)) => Ok((Raw::Bytes(type_code, data), s)),
                }
            },
        },
    }
}

/// The next `n` bind values.
pub open spec fn raw_values_at(s: Seq<u8>, n: nat) -> At<Seq<Raw>>
    decreases n,
{
    if n == 0 {
        Ok((Seq::empty(), s))
    } else {
        match raw_value_at(s) {
            Err(e) => Err(e),
            Ok((first, s)) => match raw_values_at(s, (n - 1) as nat) {
                Err(e) => Err(e),
                Ok((more, s)) => Ok((seq![first] + more, s)),
            },
        }
    }
}

/// The bind values at the front, behind their number.
pub open spec fn counted_values_at(s: Seq<u8>) -> At<Seq<Raw>> {
    match u16_at(s) {
        Err(e) => Err(e),
        Ok((n, s)) => raw_values_at(s, n as nat),
    }
}

/// Reads a bind value; its data stay shared.
fn decode_raw_value_zerocopy(reader: &mut BytesReader) -> (r: Result<RawValue, CodecError>)
    requires
        old(reader).wf(),
    ensures
        final(reader).wf(),
        match raw_value_at(old(reader).rest()) {
            Ok((raw, rest)) => r is Ok && r->Ok_0@ == raw && final(reader).rest() == rest,
            Err(e) => r == Err::<RawValue, CodecError>(e),
        },
{
    let type_code: u16 = match reader.read_u16() {
        Ok(v) => v,
        Err(e) => {
            return Err(e);
        },
    };
    let len: i32 = match reader.read_i32() {
        Ok(v) => v,
        Err(e) => {
            return Err(e);
        },
    };
    if len < 0 {
        return Ok(RawValue::Null { type_code });
    }
    match reader.take_bytes(len as usize) {
        Ok(data) => Ok(RawValue::Bytes { type_code, data }),
        Err(e) => Err(e),
    }
}

/// Reads bind values behind their number; their data stay shared.
fn decode_raw_values_zerocopy(reader: &mut BytesReader) -> (r: Result<Vec<RawValue>, CodecError>)
    requires
        old(reader).wf(),
    ensures
        final(reader).wf(),
        match counted_values_at(old(reader).rest()) {
            Ok((values, rest)) => r is Ok && raws(r->Ok_0@) == values && final(reader).rest()
                == rest,
            Err(e) => r == Err::<Vec<RawValue>, CodecError>(e),
        },
{
    let count: u16 = match reader.read_u16() {
        Ok(v) => v,
        Err(e) => {
            return Err(e);
        },
    };
    let ghost start = reader.rest();
    let ghost all = raw_values_at(start, count as nat);
    let mut values: Vec<RawValue> = Vec::new();
    let mut i: u16 = 0;
    proof {
        assert(raws(values@) =~= Seq::empty());
        lemma_after_at(Seq::empty(), Raw::Null(0), all, start);
    }
    while i < count
        invariant
            i <= count,
            reader.wf(),
            counted_values_at(old(reader).rest()) == all,
            all == after_at(raws(values@), raw_values_at(reader.rest(), (count - i) as nat)),
        decreases count - i,
    {
        let ghost done = raws(values@);
        let value: RawValue = match decode_raw_value_zerocopy(reader) {
            Ok(v) => v,
            Err(e) => {
                return Err(e);
            },
        };
        proof {
            lemma_after_at(done, value@, raw_values_at(reader.rest(), (count - i - 1) as nat), start);
            assert(raws(values@.push(value)) =~= done.push(value@));
        }
        values.push(value);
        i = i + 1;
    }
    proof {
        lemma_after_at(raws(values@), Raw::Null(0), all, reader.rest());
    }
    Ok(values)
}

/// What an EXECUTE request asks for. The last bit of its flags says that values follow.
pub open spec fn execute_of(body: Seq<u8>) -> Result<ExecuteReq, ParseError> {
    match u64_at(body) {
        Err(_) => Err(ParseError::SessionId(Request::Execute)),
        Ok((session_id, s)) => match text_at(s) {
            Err(_) => Err(ParseError::StatementKey(Request::Execute)),
            Ok((statement_key, s)) => match u16_at(s) {
                Err(_) => Err(ParseError::Consistency(Request::Execute)),
                Ok((level, s)) => match u8_at(s) {
                    Err(_) => Err(ParseError::MissingFlags(Request::Execute)),
                    Ok((flags, s)) => {
                        let consistency = Consistency::of_code(level);
                        if flags % 2 == 1 {
                            match counted_values_at(s) {
                                Err(e) => Err(ParseError::Values(e)),
                                Ok((values, _)) => Ok(
                                    ExecuteReq { session_id, statement_key, consistency, values },
                                ),
                            }
                        } else {
                            Ok(
                                ExecuteReq {
                                    session_id,
                                    statement_key,
                                    consistency,
                                    values: Seq::empty(),
                                },
                            )
                        }
                    },
                },
            },
        },
    }
}

/// Parses an EXECUTE request.
pub fn parse_execute_frame(frame: &Frame) -> (r: Result<ParsedExecute, ParseError>)
    ensures
        match execute_of(contents(frame.body)) {
            Ok(x) => r is Ok && r->Ok_0@ == x,
            Err(e) => r == Err::<ParsedExecute, ParseError>(e),
        },
{
    let mut reader: BytesReader = BytesReader::new(clone_bytes(&frame.body));
    let session_id: u64 = match reader.read_u64() {
        Ok(v) => v,
        Err(_) => {
            return Err(ParseError::SessionId(Request::Execute));
        },
    };
    let statement_key: String = match reader.read_string() {
        Ok(v) => v,
        Err(_) => {
            return Err(ParseError::StatementKey(Request::Execute));
        },
    };
    let level: u16 = match reader.read_u16() {
        Ok(v) => v,
        Err(_) => {
            return Err(ParseError::Consistency(Request::Execute));
        },
    };
    let flags: u8 = match reader.read_u8() {
        Ok(v) => v,
        Err(_) => {
            return Err(ParseError::MissingFlags(Request::Execute));
        },
    };
    let raw_values: Vec<RawValue> = if flags % 2 == 1 {
        match decode_raw_values_zerocopy(&mut reader) {
            Ok(v) => v,
            Err(e) => {
                return Err(ParseError::Values(e));
            },
        }
    } else {
        Vec::new()
    };
    assert(flags % 2 == 0 ==> raws(raw_values@) =~= Seq::empty());
    Ok(
        ParsedExecute {
            session_id,
            statement_key,
            consistency: Consistency::from_u16_or_one(level),
            raw_values,
        },
    )
}

/// A statement of a batch: a kind of 1, the key of the prepared statement and its values.
pub open spec fn statement_at(s: Seq<u8>) -> Result<
    ((Seq<char>, Seq<Raw>), Seq<u8>),
    ParseError,
> {
    match u8_at(s) {
        Err(_) => Err(ParseError::MissingStatementKind),
        Ok((kind, s)) => if kind != 1 {
            Err(ParseError::UnsupportedStatementKind(kind))
        } else {
            match text_at(s) {
                Err(_) => Err(ParseError::StatementKey(Request::Batch)),
                Ok((key, s)) => match counted_values_at(s) {
                    Err(e) => Err(ParseError::Values(e)),
                    Ok((values, s)) => Ok(((key, values), s)),
                },
            }
        },
    }
}

/// The next `n` statements of a batch.
pub open spec fn statements_at(s: Seq<u8>, n: nat) -> Result<
    (Seq<(Seq<char>, Seq<Raw>)>, Seq<u8>),
    ParseError,
>
    decreases n,
{
    if n == 0 {
        Ok((Seq::empty(), s))
    } else {
        match statement_at(s) {
            Err(e) => Err(e),
            Ok((first, s)) => match statements_at(s, (n - 1) as nat) {
                Err(e) => Err(e),
                Ok((more, s)) => Ok((seq![first] + more, s)),
            },
        }
    }
}

/// What a BATCH request asks for. The flags behind the consistency are not looked at.
pub open spec fn batch_of(body: Seq<u8>) -> Result<BatchReq, ParseError> {
    match u64_at(body) {
        Err(_) => Err(ParseError::SessionId(Request::Batch)),
        Ok((session_id, s)) => match u8_at(s) {
            Err(_) => Err(ParseError::MissingBatchType),
            Ok((batch_type, s)) => match u16_at(s) {
                Err(_) => Err(ParseError::StatementCount),
                Ok((n, s)) => match statements_at(s, n as nat) {
                    Err(e) => Err(e),
                    Ok((statements, s)) => match u16_at(s) {
                        Err(_) => Err(ParseError::Consistency(Request::Batch)),
                        Ok((level, _)) => Ok(
                            BatchReq {
                                session_id,
                                batch_type,
                                statements,
                                consistency: Consistency::of_code(level),
                            },
                        ),
                    },
                },
            },
        },
    }
}

/// Parses a statement of a batch.
fn parse_statement(reader: &mut BytesReader) -> (r: Result<BatchStatement, ParseError>)
    requires
        old(reader).wf(),
    ensures
        final(reader).wf(),
        match statement_at(old(reader).rest()) {
            Ok((statement, rest)) => r is Ok && (
            r->Ok_0.statement_key@,
            raws(r->Ok_0.raw_values@),
            ) == statement && final(reader).rest() == rest,
            Err(e) => r == Err::<BatchStatement, ParseError>(e),
        },
{
    let kind: u8 = match reader.read_u8() {
        Ok(v) => v,
        Err(_) => {
            return Err(ParseError::MissingStatementKind);
        },
    };
    if kind != 1 {
        return Err(ParseError::UnsupportedStatementKind(kind));
    }
    let statement_key: String = match reader.read_string() {
        Ok(v) => v,
        Err(_) => {
            return Err(ParseError::StatementKey(Request::Batch));
        },
    };
    match decode_raw_values_zerocopy(reader) {
        Ok(raw_values) => Ok(BatchStatement { statement_key, raw_values }),
        Err(e) => Err(ParseError::Values(e)),
    }
}

/// `at`, with `done` in front of its statements.
spec fn after_statements(
    done: Seq<(Seq<char>, Seq<Raw>)>,
    at: Result<(Seq<(Seq<char>, Seq<Raw>)>, Seq<u8>), ParseError>,
) -> Result<(Seq<(Seq<char>, Seq<Raw>)>, Seq<u8>), ParseError> {
    match at {
        Ok((more, rest)) => Ok((done + more, rest)),
        Err(e) => Err(e),
    }
}

/// Parses the statements of a batch.
fn parse_statements(reader: &mut BytesReader, n: u16) -> (r: Result<
    Vec<BatchStatement>,
    ParseError,
>)
    requires
        old(reader).wf(),
    ensures
        final(reader).wf(),
        match statements_at(old(reader).rest(), n as nat) {
            Ok((statements, rest)) => r is Ok && statements_of(r->Ok_0@) == statements && final(reader).rest() == rest,
            Err(e) => r == Err::<Vec<BatchStatement>, ParseError>(e),
        },
{
    let ghost all = statements_at(reader.rest(), n as nat);
    let mut statements: Vec<BatchStatement> = Vec::new();
    let mut i: u16 = 0;
    proof {
        assert(statements_of(statements@) =~= Seq::empty());
        if let Ok((more, rest)) = all {
            assert(Seq::empty() + more =~= more);
        }
    }
    while i < n
        invariant
            i <= n,
            reader.wf(),
            all == statements_at(old(reader).rest(), n as nat),
            all == after_statements(
                statements_of(statements@),
                statements_at(reader.rest(), (n - i) as nat),
            ),
        decreases n - i,
    {
        let ghost done = statements_of(statements@);
        let statement: BatchStatement = match parse_statement(reader) {
            Ok(v) => v,
            Err(e) => {
                return Err(e);
            },
        };
        proof {
            let item = (statement.statement_key@, raws(statement.raw_values@));
            assert(statements_of(statements@.push(statement)) =~= done.push(item));
            if let Ok((more, rest)) = statements_at(reader.rest(), (n - i - 1) as nat) {
                assert(done + (seq![item] + more) =~= done.push(item) + more);
            }
        }
        statements.push(statement);
        i = i + 1;
    }
    proof {
        assert(statements_of(statements@) + Seq::empty() =~= statements_of(statements@));
    }
    Ok(statements)
}

/// Parses a BATCH request.
pub fn parse_batch_frame(frame: &Frame) -> (r: Result<ParsedBatch, ParseError>)
    ensures
        match batch_of(contents(frame.body)) {
            Ok(b) => r is Ok && r->Ok_0@ == b,
            Err(e) => r == Err::<ParsedBatch, ParseError>(e),
        },
{
    let mut reader: BytesReader = BytesReader::new(clone_bytes(&frame.body));
    let session_id: u64 = match reader.read_u64() {
        Ok(v) => v,
        Err(_) => {
            return Err(ParseError::SessionId(Request::Batch));
        },
    };
    let batch_type: u8 = match reader.read_u8() {
        Ok(v) => v,
        Err(_) => {
            return Err(ParseError::MissingBatchType);
        },
    };
    let n_statements: u16 = match reader.read_u16() {
        Ok(v) => v,
        Err(_) => {
            return Err(ParseError::StatementCount);
        },
    };
    let statements: Vec<BatchStatement> = match parse_statements(&mut reader, n_statements) {
        Ok(v) => v,
        Err(e) => {
            return Err(e);
        },
    };
    match reader.read_u16() {
        Ok(level) => Ok(
            ParsedBatch {
                session_id,
                batch_type,
                statements,
                consistency: Consistency::from_u16_or_one(level),
            },
        ),
        Err(_) => Err(ParseError::Consistency(Request::Batch)),
    }
}

} // verus!
