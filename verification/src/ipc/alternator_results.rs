//! What the replies of an Alternator adapter say.

use super::alternator_codec::{
    bool_at, i64_at, item_at, key_at, read_bool, read_i64, read_item, read_key, read_string,
    read_u16, read_u32, read_u8, text_at, u16_at, u32_at, u8_at,
};
use super::alternator_client::AlternatorSessionId;
use super::alternator_protocol::{decode_error, error_of, Frame, ResponseOpcode};
use super::attribute::{attrs, items_of, Attrs, Item};
use crate::error::CodecError;
use crate::number::{decimal, decimal_text};
use crate::reader::At;
use crate::text::{both, joined};
use crate::text_map::TextMap;
use crate::wire::{bytes_slice, contents, read_be8, un8};
use vstd::prelude::*;
use vstd::string::*;

verus! {

/// What a single-item operation came back with.
#[derive(Debug)]
pub struct ItemResult {
    pub item: Option<Item>,
    pub driver_latency_ns: i64,
}

/// What a query or a scan came back with.
#[derive(Debug)]
pub struct QueryScanResult {
    pub items: Vec<Item>,
    pub last_evaluated_key: Option<Item>,
    pub scanned_count: u32,
    pub driver_latency_ns: i64,
}

/// What a BatchGetItem operation came back with, by the names of the tables.
#[derive(Debug)]
pub struct BatchGetResult {
    pub responses: TextMap<Vec<Item>>,
    pub unprocessed_keys: TextMap<Vec<Item>>,
    pub driver_latency_ns: i64,
}

/// What a BatchWriteItem operation came back with.
#[derive(Debug)]
pub struct BatchWriteResult {
    /// The number of tables with items that were not written.
    pub unprocessed_items_count: usize,
    pub driver_latency_ns: i64,
}

/// Why a reply does not give what was asked for.
#[derive(Debug)]
pub enum AlternatorError {
    /// The opcode is unknown.
    UnknownOpcode(u8),
    /// The adapter answered with an error: its code, type and message.
    Failed { code: u32, kind: String, message: String },
    /// The reply has another opcode than the request asks for.
    UnexpectedOpcode(ResponseOpcode),
    /// The body has too few bytes.
    BodyTooShort(usize),
    /// The body cannot be decoded.
    Codec(CodecError),
}

/// Why a reply does not give what was asked for; the mathematical value of an [`AlternatorError`].
pub enum Refusal {
    UnknownOpcode(u8),
    Failed(u32, Seq<char>, Seq<char>),
    UnexpectedOpcode(ResponseOpcode),
    BodyTooShort(nat),
    Codec(CodecError),
}

impl View for AlternatorError {
    type V = Refusal;

    open spec fn view(&self) -> Refusal {
        match self {
            AlternatorError::UnknownOpcode(n) => Refusal::UnknownOpcode(*n),
            AlternatorError::Failed { code, kind, message } => Refusal::Failed(
                *code,
                kind@,
                message@,
            ),
            AlternatorError::UnexpectedOpcode(o) => Refusal::UnexpectedOpcode(*o),
            AlternatorError::BodyTooShort(n) => Refusal::BodyTooShort(*n as nat),
            AlternatorError::Codec(e) => Refusal::Codec(*e),
        }
    }
}

/// Why a reply with an opcode and a body is not the one that is wanted, if it is not.
pub open spec fn refusal(opcode: u8, body: Seq<u8>, wanted: ResponseOpcode) -> Option<Refusal> {
    match ResponseOpcode::of_number(opcode) {
        None => Some(Refusal::UnknownOpcode(opcode)),
        Some(ResponseOpcode::Error) => Some(
            Refusal::Failed(error_of(body).0, error_of(body).1, error_of(body).2),
        ),
        Some(o) => if o == wanted {
            None
        } else {
            Some(Refusal::UnexpectedOpcode(o))
        },
    }
}

/// The error that an ERROR reply carries.
fn failure(frame: &Frame) -> (e: AlternatorError)
    ensures
        e@ == Refusal::Failed(
            error_of(contents(frame.body)).0,
            error_of(contents(frame.body)).1,
            error_of(contents(frame.body)).2,
        ),
{
    let (code, kind, message): (u32, String, String) = decode_error(&frame.body);
    AlternatorError::Failed { code, kind, message }
}

/// The opcode of a reply that is no error.
fn opcode_of(frame: &Frame) -> (r: Result<ResponseOpcode, AlternatorError>)
    ensures
        match ResponseOpcode::of_number(frame.header.opcode) {
            None => r is Err && r->Err_0@ == Refusal::UnknownOpcode(frame.header.opcode),
            Some(ResponseOpcode::Error) => r is Err && r->Err_0@ == Refusal::Failed(
                error_of(contents(frame.body)).0,
                error_of(contents(frame.body)).1,
                error_of(contents(frame.body)).2,
            ),
            Some(o) => r == Ok::<ResponseOpcode, AlternatorError>(o),
        },
{
    match ResponseOpcode::try_from(frame.header.opcode) {
        Err(_) => Err(AlternatorError::UnknownOpcode(frame.header.opcode)),
        Ok(opcode) => if opcode == ResponseOpcode::Error {
            Err(failure(frame))
        } else {
            Ok(opcode)
        },
    }
}

/// Checks that a reply is the one that is wanted.
fn expect(frame: &Frame, wanted: ResponseOpcode) -> (r: Result<(), AlternatorError>)
    ensures
        match refusal(frame.header.opcode, contents(frame.body), wanted) {
            Some(e) => r is Err && r->Err_0@ == e,
            None => r is Ok,
        },
{
    match opcode_of(frame) {
        Err(e) => Err(e),
        Ok(opcode) => if opcode != wanted {
            Err(AlternatorError::UnexpectedOpcode(opcode))
        } else {
            Ok(())
        },
    }
}

/// Reads the reply to a request that creates a session: the id of the session.
pub fn decode_session_created(frame: &Frame) -> (r: Result<AlternatorSessionId, AlternatorError>)
    ensures
        match refusal(frame.header.opcode, contents(frame.body), ResponseOpcode::SessionCreated) {
            Some(e) => r is Err && r->Err_0@ == e,
            None => if contents(frame.body).len() < 8 {
                r is Err && r->Err_0@ == Refusal::BodyTooShort(contents(frame.body).len())
            } else {
                r matches Ok(id) && id == un8(contents(frame.body))
            },
        },
{
    if let Err(e) = expect(frame, ResponseOpcode::SessionCreated) {
        return Err(e);
    }
    let body: &[u8] = bytes_slice(&frame.body);
    if body.len() < 8 {
        return Err(AlternatorError::BodyTooShort(body.len()));
    }
    Ok(read_be8(body))
}

/// Reads the reply to a request that closes a session: anything but an error is a success.
pub fn decode_session_closed(frame: &Frame) -> (r: Result<(), AlternatorError>)
    ensures
        match ResponseOpcode::of_number(frame.header.opcode) {
            None => r is Err && r->Err_0@ == Refusal::UnknownOpcode(frame.header.opcode),
            Some(ResponseOpcode::Error) => r is Err && r->Err_0@ == Refusal::Failed(
                error_of(contents(frame.body)).0,
                error_of(contents(frame.body)).1,
                error_of(contents(frame.body)).2,
            ),
            Some(_) => r is Ok,
        },
{
    match opcode_of(frame) {
        Err(e) => Err(e),
        Ok(_) => Ok(()),
    }
}

/// An optional item behind a flag that says whether it is there.
pub open spec fn opt_item_at(s: Seq<u8>) -> At<Option<Attrs>> {
    match bool_at(s) {
        Err(e) => Err(e),
        Ok((false, rest)) => Ok((None, rest)),
        Ok((true, rest)) => match item_at(rest) {
            Err(e) => Err(e),
            Ok((item, rest)) => Ok((Some(item), rest)),
        },
    }
}

/// An optional key behind a flag that says whether it is there.
pub open spec fn opt_key_at(s: Seq<u8>) -> At<Option<Attrs>> {
    match bool_at(s) {
        Err(e) => Err(e),
        Ok((false, rest)) => Ok((None, rest)),
        Ok((true, rest)) => match key_at(rest) {
            Err(e) => Err(e),
            Ok((key, rest)) => Ok((Some(key), rest)),
        },
    }
}

/// The driver's latency at the end of a result, behind a flag that is not used.
pub open spec fn latency_at(s: Seq<u8>) -> Result<i64, CodecError> {
    match bool_at(s) {
        Err(e) => Err(e),
        Ok((_, rest)) => match i64_at(rest) {
            Err(e) => Err(e),
            Ok((n, _)) => Ok(n),
        },
    }
}

/// What the body of an ITEM_RESULT reply says.
pub open spec fn item_result_of(body: Seq<u8>) -> Result<(Option<Attrs>, i64), CodecError> {
    match opt_item_at(body) {
        Err(e) => Err(e),
        Ok((item, rest)) => match latency_at(rest) {
            Err(e) => Err(e),
            Ok(latency) => Ok((item, latency)),
        },
    }
}

/// The attributes of an optional item.
pub open spec fn opt_item(item: Option<Item>) -> Option<Attrs> {
    match item {
        Some(v) => Some(attrs(v@)),
        None => None,
    }
}

/// Reads the driver's latency.
fn read_latency(slice: &mut &[u8]) -> (r: Result<i64, CodecError>)
    ensures
        r == latency_at((*old(slice))@),
{
    if let Err(e) = read_bool(slice) {
        return Err(e);
    }
    read_i64(slice)
}

/// Reads an optional key or item.
fn read_optional(slice: &mut &[u8], keys: bool) -> (r: Result<Option<Item>, CodecError>)
    ensures
        match if keys {
            opt_key_at((*old(slice))@)
        } else {
            opt_item_at((*old(slice))@)
        } {
            Ok((item, rest)) => r is Ok && opt_item(r->Ok_0) == item && (*final(slice))@ == rest,
            Err(e) => r == Err::<Option<Item>, CodecError>(e),
        },
{
    match read_bool(slice) {
        Err(e) => Err(e),
        Ok(there) => if !there {
            Ok(None)
        } else {
            let read: Result<Item, CodecError> = if keys {
                read_key(slice)
            } else {
                read_item(slice)
            };
            match read {
                Ok(item) => Ok(Some(item)),
                Err(e) => Err(e),
            }
        },
    }
}

/// Reads the reply to a single-item operation.
pub fn decode_item_result(frame: &Frame) -> (r: Result<ItemResult, AlternatorError>)
    ensures
        match refusal(frame.header.opcode, contents(frame.body), ResponseOpcode::ItemResult) {
            Some(e) => r is Err && r->Err_0@ == e,
            None => match item_result_of(contents(frame.body)) {
                Err(e) => r is Err && r->Err_0@ == Refusal::Codec(e),
                Ok((item, latency)) => r is Ok && opt_item(r->Ok_0.item) == item
                    && r->Ok_0.driver_latency_ns == latency,
            },
        },
{
    if let Err(e) = expect(frame, ResponseOpcode::ItemResult) {
        return Err(e);
    }
    let mut slice: &[u8] = bytes_slice(&frame.body);
    let item: Option<Item> = match read_optional(&mut slice, false) {
        Ok(item) => item,
        Err(e) => {
            return Err(AlternatorError::Codec(e));
        },
    };
    match read_latency(&mut slice) {
        Ok(driver_latency_ns) => Ok(ItemResult { item, driver_latency_ns }),
        Err(e) => Err(AlternatorError::Codec(e)),
    }
}

/// `n` keys or items at the front, behind those that are there.
pub open spec fn rows_at(s: Seq<u8>, n: nat, keys: bool, done: Seq<Attrs>) -> At<Seq<Attrs>>
    decreases n,
{
    if n == 0 {
        Ok((done, s))
    } else {
        match if keys {
            key_at(s)
        } else {
            item_at(s)
        } {
            Err(e) => Err(e),
            Ok((row, rest)) => rows_at(rest, (n - 1) as nat, keys, done.push(row)),
        }
    }
}

/// Keys or items behind their number.
pub open spec fn counted_rows_at(s: Seq<u8>, keys: bool) -> At<Seq<Attrs>> {
    match u32_at(s) {
        Err(e) => Err(e),
        Ok((n, rest)) => rows_at(rest, n as nat, keys, Seq::empty()),
    }
}

/// Reads keys or items behind their number.
fn read_rows(slice: &mut &[u8], keys: bool) -> (r: Result<Vec<Item>, CodecError>)
    ensures
        match counted_rows_at((*old(slice))@, keys) {
            Ok((s, rest)) => r is Ok && items_of(r->Ok_0@) == s && (*final(slice))@ == rest,
            Err(e) => r == Err::<Vec<Item>, CodecError>(e),
        },
{
    let n: u32 = match read_u32(slice) {
        Ok(n) => n,
        Err(e) => {
            return Err(e);
        },
    };
    let mut rows: Vec<Item> = Vec::new();
    let mut left: u32 = n;
    let ghost begin = (*slice)@;
    assert(items_of(rows@) =~= Seq::empty());
    while left > 0
        invariant
            rows_at(begin, n as nat, keys, Seq::empty()) == rows_at(
                (*slice)@,
                left as nat,
                keys,
                items_of(rows@),
            ),
            counted_rows_at((*old(slice))@, keys) == rows_at(begin, n as nat, keys, Seq::empty()),
        decreases left,
    {
        let ghost before = rows@;
        let read: Result<Item, CodecError> = if keys {
            read_key(slice)
        } else {
            read_item(slice)
        };
        match read {
            Ok(row) => {
                rows.push(row);
                assert(items_of(rows@) =~= items_of(before).push(attrs(row@)));
            },
            Err(e) => {
                return Err(e);
            },
        }
        left = left - 1;
    }
    Ok(rows)
}

/// What a query or a scan came back with; the mathematical value of a [`QueryScanResult`].
pub struct Page {
    pub items: Seq<Attrs>,
    pub last_key: Option<Attrs>,
    pub scanned: u32,
    pub latency: i64,
}

/// What the body of a QUERY_RESULT reply says.
pub open spec fn query_result_of(body: Seq<u8>) -> Result<Page, CodecError> {
    match counted_rows_at(body, false) {
        Err(e) => Err(e),
        Ok((items, rest)) => match opt_key_at(rest) {
            Err(e) => Err(e),
            Ok((last_key, rest)) => match u32_at(rest) {
                Err(e) => Err(e),
                Ok((scanned, rest)) => match latency_at(rest) {
                    Err(e) => Err(e),
                    Ok(latency) => Ok(Page { items, last_key, scanned, latency }),
                },
            },
        },
    }
}

impl View for QueryScanResult {
    type V = Page;

    open spec fn view(&self) -> Page {
        Page {
            items: items_of(self.items@),
            last_key: opt_item(self.last_evaluated_key),
            scanned: self.scanned_count,
            latency: self.driver_latency_ns,
        }
    }
}

/// Reads what the body of a QUERY_RESULT reply says.
fn read_page(body: &[u8]) -> (r: Result<QueryScanResult, CodecError>)
    ensures
        match query_result_of(body@) {
            Ok(page) => r is Ok && r->Ok_0@ == page,
            Err(e) => r == Err::<QueryScanResult, CodecError>(e),
        },
{
    let mut slice: &[u8] = body;
    let items: Vec<Item> = match read_rows(&mut slice, false) {
        Ok(items) => items,
        Err(e) => {
            return Err(e);
        },
    };
    let last_evaluated_key: Option<Item> = match read_optional(&mut slice, true) {
        Ok(key) => key,
        Err(e) => {
            return Err(e);
        },
    };
    let scanned_count: u32 = match read_u32(&mut slice) {
        Ok(n) => n,
        Err(e) => {
            return Err(e);
        },
    };
    match read_latency(&mut slice) {
        Ok(driver_latency_ns) => Ok(
            QueryScanResult { items, last_evaluated_key, scanned_count, driver_latency_ns },
        ),
        Err(e) => Err(e),
    }
}

/// Reads the reply to a query or a scan.
pub fn decode_query_result(frame: &Frame) -> (r: Result<QueryScanResult, AlternatorError>)
    ensures
        match refusal(frame.header.opcode, contents(frame.body), ResponseOpcode::QueryResult) {
            Some(e) => r is Err && r->Err_0@ == e,
            None => match query_result_of(contents(frame.body)) {
                Err(e) => r is Err && r->Err_0@ == Refusal::Codec(e),
                Ok(page) => r is Ok && r->Ok_0@ == page,
            },
        },
{
    if let Err(e) = expect(frame, ResponseOpcode::QueryResult) {
        return Err(e);
    }
    match read_page(bytes_slice(&frame.body)) {
        Ok(page) => Ok(page),
        Err(e) => Err(AlternatorError::Codec(e)),
    }
}

/// Keys or items by the names of their tables.
pub type Tables = Map<Seq<char>, Seq<Attrs>>;

/// The keys or items of tables.
pub open spec fn tables_of(m: Map<Seq<char>, Vec<Item>>) -> Tables {
    m.map_values(|v: Vec<Item>| items_of(v@))
}

/// `n` tables at the front, over those that are there: of two with one name the later counts.
pub open spec fn tables_at(s: Seq<u8>, n: nat, keys: bool, done: Tables) -> At<Tables>
    decreases n,
{
    if n == 0 {
        Ok((done, s))
    } else {
        match text_at(s) {
            Err(e) => Err(e),
            Ok((name, rest)) => match counted_rows_at(rest, keys) {
                Err(e) => Err(e),
                Ok((rows, rest)) => tables_at(rest, (n - 1) as nat, keys, done.insert(name, rows)),
            },
        }
    }
}

/// Tables behind their number.
pub open spec fn counted_tables_at(s: Seq<u8>, keys: bool) -> At<Tables> {
    match u16_at(s) {
        Err(e) => Err(e),
        Ok((n, rest)) => tables_at(rest, n as nat, keys, Map::empty()),
    }
}

/// Reads tables behind their number.
fn read_tables(slice: &mut &[u8], keys: bool) -> (r: Result<TextMap<Vec<Item>>, CodecError>)
    ensures
        match counted_tables_at((*old(slice))@, keys) {
            Ok((m, rest)) => r is Ok && tables_of(r->Ok_0@) == m && (*final(slice))@ == rest,
            Err(e) => r == Err::<TextMap<Vec<Item>>, CodecError>(e),
        },
{
    let n: u16 = match read_u16(slice) {
        Ok(n) => n,
        Err(e) => {
            return Err(e);
        },
    };
    let mut tables: TextMap<Vec<Item>> = TextMap::new();
    let mut left: u16 = n;
    let ghost begin = (*slice)@;
    assert(tables_of(tables@) =~= Map::empty());
    while left > 0
        invariant
            tables_at(begin, n as nat, keys, Map::empty()) == tables_at(
                (*slice)@,
                left as nat,
                keys,
                tables_of(tables@),
            ),
            counted_tables_at((*old(slice))@, keys) == tables_at(
                begin,
                n as nat,
                keys,
                Map::empty(),
            ),
        decreases left,
    {
        let ghost before = tables@;
        let name: String = match read_string(slice) {
            Ok(name) => name,
            Err(e) => {
                return Err(e);
            },
        };
        match read_rows(slice, keys) {
            Ok(rows) => {
                let ghost k = name@;
                let ghost v = items_of(rows@);
                tables.insert(name, rows);
                assert(tables_of(tables@) =~= tables_of(before).insert(k, v));
            },
            Err(e) => {
                return Err(e);
            },
        }
        left = left - 1;
    }
    Ok(tables)
}

/// What the body of a BATCH_RESULT reply says of a BatchGetItem operation.
pub open spec fn batch_get_of(body: Seq<u8>) -> Result<(Tables, Tables, i64), CodecError> {
    match counted_tables_at(body, false) {
        Err(e) => Err(e),
        Ok((responses, rest)) => match counted_tables_at(rest, true) {
            Err(e) => Err(e),
            Ok((unprocessed, rest)) => match latency_at(rest) {
                Err(e) => Err(e),
                Ok(latency) => Ok((responses, unprocessed, latency)),
            },
        },
    }
}

/// Reads the reply to a BatchGetItem operation.
pub fn decode_batch_get_result(frame: &Frame) -> (r: Result<BatchGetResult, AlternatorError>)
    ensures
        match refusal(frame.header.opcode, contents(frame.body), ResponseOpcode::BatchResult) {
            Some(e) => r is Err && r->Err_0@ == e,
            None => match batch_get_of(contents(frame.body)) {
                Err(e) => r is Err && r->Err_0@ == Refusal::Codec(e),
                Ok((responses, unprocessed, latency)) => r is Ok && tables_of(
                    r->Ok_0.responses@,
                ) == responses && tables_of(r->Ok_0.unprocessed_keys@) == unprocessed
                    && r->Ok_0.driver_latency_ns == latency,
            },
        },
{
    if let Err(e) = expect(frame, ResponseOpcode::BatchResult) {
        return Err(e);
    }
    let mut slice: &[u8] = bytes_slice(&frame.body);
    let responses: TextMap<Vec<Item>> = match read_tables(&mut slice, false) {
        Ok(m) => m,
        Err(e) => {
            return Err(AlternatorError::Codec(e));
        },
    };
    let unprocessed_keys: TextMap<Vec<Item>> = match read_tables(&mut slice, true) {
        Ok(m) => m,
        Err(e) => {
            return Err(AlternatorError::Codec(e));
        },
    };
    match read_latency(&mut slice) {
        Ok(driver_latency_ns) => Ok(
            BatchGetResult { responses, unprocessed_keys, driver_latency_ns },
        ),
        Err(e) => Err(AlternatorError::Codec(e)),
    }
}

/// The bytes behind a write at the front.
pub open spec fn write_at(s: Seq<u8>) -> Result<Seq<u8>, CodecError> {
    match u8_at(s) {
        Err(e) => Err(e),
        Ok((kind, rest)) => if kind == 0x01 {
            match item_at(rest) {
                Err(e) => Err(e),
                Ok((_, rest)) => Ok(rest),
            }
        } else if kind == 0x02 {
            match key_at(rest) {
                Err(e) => Err(e),
                Ok((_, rest)) => Ok(rest),
            }
        } else {
            Err(CodecError::UnknownWriteRequest(kind))
        },
    }
}

/// The bytes behind `n` writes at the front.
pub open spec fn writes_at(s: Seq<u8>, n: nat) -> Result<Seq<u8>, CodecError>
    decreases n,
{
    if n == 0 {
        Ok(s)
    } else {
        match write_at(s) {
            Err(e) => Err(e),
            Ok(rest) => writes_at(rest, (n - 1) as nat),
        }
    }
}

/// The bytes behind the writes of `n` tables at the front.
pub open spec fn table_writes_at(s: Seq<u8>, n: nat) -> Result<Seq<u8>, CodecError>
    decreases n,
{
    if n == 0 {
        Ok(s)
    } else {
        match text_at(s) {
            Err(e) => Err(e),
            Ok((_, rest)) => match u32_at(rest) {
                Err(e) => Err(e),
                Ok((count, rest)) => match writes_at(rest, count as nat) {
                    Err(e) => Err(e),
                    Ok(rest) => table_writes_at(rest, (n - 1) as nat),
                },
            },
        }
    }
}

/// What the body of a BATCH_RESULT reply says of a BatchWriteItem operation:
/// the number of tables with writes that were not made, and the driver's latency.
pub open spec fn batch_write_of(body: Seq<u8>) -> Result<(u16, i64), CodecError> {
    match counted_tables_at(body, false) {
        Err(e) => Err(e),
        Ok((_, rest)) => match counted_tables_at(rest, true) {
            Err(e) => Err(e),
            Ok((_, rest)) => match u16_at(rest) {
                Err(e) => Err(e),
                Ok((n, rest)) => match table_writes_at(rest, n as nat) {
                    Err(e) => Err(e),
                    Ok(rest) => match latency_at(rest) {
                        Err(e) => Err(e),
                        Ok(latency) => Ok((n, latency)),
                    },
                },
            },
        },
    }
}

/// Passes over a write.
fn skip_write(slice: &mut &[u8]) -> (r: Result<(), CodecError>)
    ensures
        match write_at((*old(slice))@) {
            Ok(rest) => r is Ok && (*final(slice))@ == rest,
            Err(e) => r == Err::<(), CodecError>(e),
        },
{
    match read_u8(slice) {
        Err(e) => Err(e),
        Ok(kind) => {
            if kind == 0x01 {
                match read_item(slice) {
                    Ok(_) => Ok(()),
                    Err(e) => Err(e),
                }
            } else if kind == 0x02 {
                match read_key(slice) {
                    Ok(_) => Ok(()),
                    Err(e) => Err(e),
                }
            } else {
                Err(CodecError::UnknownWriteRequest(kind))
            }
        },
    }
}

/// Passes over `n` writes.
fn skip_writes(slice: &mut &[u8], n: u32) -> (r: Result<(), CodecError>)
    ensures
        match writes_at((*old(slice))@, n as nat) {
            Ok(rest) => r is Ok && (*final(slice))@ == rest,
            Err(e) => r == Err::<(), CodecError>(e),
        },
{
    let mut left: u32 = n;
    while left > 0
        invariant
            writes_at((*old(slice))@, n as nat) == writes_at((*slice)@, left as nat),
        decreases left,
    {
        if let Err(e) = skip_write(slice) {
            return Err(e);
        }
        left = left - 1;
    }
    Ok(())
}

/// Passes over the writes of `n` tables.
fn skip_table_writes(slice: &mut &[u8], n: u16) -> (r: Result<(), CodecError>)
    ensures
        match table_writes_at((*old(slice))@, n as nat) {
            Ok(rest) => r is Ok && (*final(slice))@ == rest,
            Err(e) => r == Err::<(), CodecError>(e),
        },
{
    let mut left: u16 = n;
    while left > 0
        invariant
            table_writes_at((*old(slice))@, n as nat) == table_writes_at((*slice)@, left as nat),
        decreases left,
    {
        if let Err(e) = read_string(slice) {
            return Err(e);
        }
        let count: u32 = match read_u32(slice) {
            Ok(count) => count,
            Err(e) => {
                return Err(e);
            },
        };
        if let Err(e) = skip_writes(slice, count) {
            return Err(e);
        }
        left = left - 1;
    }
    Ok(())
}

/// Reads what the body of a BATCH_RESULT reply says of a BatchWriteItem operation.
fn read_batch_write(body: &[u8]) -> (r: Result<BatchWriteResult, CodecError>)
    ensures
        match batch_write_of(body@) {
            Ok((n, latency)) => r matches Ok(result) && result.unprocessed_items_count == n
                && result.driver_latency_ns == latency,
            Err(e) => r == Err::<BatchWriteResult, CodecError>(e),
        },
{
    let mut slice: &[u8] = body;
    if let Err(e) = read_tables(&mut slice, false) {
        return Err(e);
    }
    if let Err(e) = read_tables(&mut slice, true) {
        return Err(e);
    }
    let n: u16 = match read_u16(&mut slice) {
        Ok(n) => n,
        Err(e) => {
            return Err(e);
        },
    };
    if let Err(e) = skip_table_writes(&mut slice, n) {
        return Err(e);
    }
    match read_latency(&mut slice) {
        Ok(driver_latency_ns) => Ok(
            BatchWriteResult { unprocessed_items_count: n as usize, driver_latency_ns },
        ),
        Err(e) => Err(e),
    }
}

/// Reads the reply to a BatchWriteItem operation.
pub fn decode_batch_write_result(frame: &Frame) -> (r: Result<BatchWriteResult, AlternatorError>)
    ensures
        match refusal(frame.header.opcode, contents(frame.body), ResponseOpcode::BatchResult) {
            Some(e) => r is Err && r->Err_0@ == e,
            None => match batch_write_of(contents(frame.body)) {
                Err(e) => r is Err && r->Err_0@ == Refusal::Codec(e),
                Ok((n, latency)) => r matches Ok(result) && result.unprocessed_items_count == n
                    && result.driver_latency_ns == latency,
            },
        },
{
    if let Err(e) = expect(frame, ResponseOpcode::BatchResult) {
        return Err(e);
    }
    match read_batch_write(bytes_slice(&frame.body)) {
        Ok(result) => Ok(result),
        Err(e) => Err(AlternatorError::Codec(e)),
    }
}

/// What is said of an error that the adapter answered with.
pub open spec fn failure_text(
    what: Seq<char>,
    code: u32,
    kind: Seq<char>,
    message: Seq<char>,
) -> Seq<char> {
    what + ": "@ + message + (" (code="@ + decimal(code as nat) + (", type="@ + kind + ")"@))
}

/// What is said of an error that the adapter answered with.
pub fn failure_message(what: &str, code: u32, kind: &str, message: &str) -> (r: String)
    ensures
        r@ == failure_text(what@, code, kind@, message@),
{
    let tail: String = joined(", type=", kind, ")");
    let middle: String = joined(" (code=", decimal_text(code as u64).as_str(), tail.as_str());
    let front: String = joined(what, ": ", message);
    both(front.as_str(), middle.as_str())
}

} // verus!
