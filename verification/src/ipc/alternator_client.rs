//! What the Alternator client sends for each operation, and what it makes of
//! the replies.

use super::alternator_codec::{
    appended, item_bytes, key_at, key_bytes, text_bytes, write_item, write_key, write_string,
};
use super::attribute::{attrs, items_of, Attrs, Item};
use crate::string_map::StringMap;
use crate::text_map::TextMap;
use crate::wire::{
    be2, be4, be8, low_u16, low_u32, mut_contents, new_buffer, put_u16, put_u32, put_u64,
    put_u8,
};
use bytes::BytesMut;
use vstd::prelude::*;
use vstd::string::*;

verus! {

broadcast use crate::wire::group_be;

/// The id of a session with an Alternator adapter.
pub type AlternatorSessionId = u64;

/// The keys that a BatchGetItem operation asks of a table.
#[derive(Debug)]
pub struct BatchGetRequestItems {
    pub keys: Vec<Item>,
    pub consistent_read: bool,
    pub projection_expression: Option<String>,
    pub expression_attribute_names: Option<StringMap>,
}

/// A write of a BatchWriteItem operation.
#[derive(Debug)]
pub enum BatchWriteRequest {
    Put(Item),
    Delete(Item),
}

/// A truth value in one byte.
pub open spec fn flag(b: bool) -> Seq<u8> {
    seq![if b { 1u8 } else { 0u8 }]
}

/// The text of an optional reference.
pub open spec fn opt_str(s: Option<&str>) -> Option<Seq<char>> {
    match s {
        Some(t) => Some(t@),
        None => None,
    }
}

/// The pairs of an optional map.
pub open spec fn opt_pairs(m: Option<&StringMap>) -> Option<Seq<(Seq<char>, Seq<char>)>> {
    match m {
        Some(map) => Some(map.items()),
        None => None,
    }
}

/// The attributes of an optional item.
pub open spec fn opt_attrs(item: Option<&Item>) -> Option<Attrs> {
    match item {
        Some(v) => Some(attrs(v@)),
        None => None,
    }
}

/// An optional text behind a flag that says whether it is there.
pub open spec fn opt_text_bytes(s: Option<Seq<char>>) -> Seq<u8> {
    match s {
        Some(t) => flag(true) + text_bytes(t),
        None => flag(false),
    }
}

/// An optional number behind a flag.
pub open spec fn opt_number_bytes(n: Option<u32>) -> Seq<u8> {
    match n {
        Some(n) => flag(true) + be4(n as int),
        None => flag(false),
    }
}

/// An optional key behind a flag.
pub open spec fn opt_key_bytes(key: Option<Attrs>) -> Seq<u8> {
    match key {
        Some(k) => flag(true) + key_bytes(k),
        None => flag(false),
    }
}

/// Pairs of texts, one behind the other.
pub open spec fn all_pairs(s: Seq<(Seq<char>, Seq<char>)>) -> Seq<u8>
    decreases s.len(),
{
    if s.len() == 0 {
        Seq::empty()
    } else {
        text_bytes(s[0].0) + text_bytes(s[0].1) + all_pairs(s.skip(1))
    }
}

/// Pairs of texts behind their number.
pub open spec fn pairs_bytes(s: Seq<(Seq<char>, Seq<char>)>) -> Seq<u8> {
    be2(s.len() as int) + all_pairs(s)
}

/// Names of attributes in expressions; none where they are not given.
pub open spec fn names_bytes(names: Option<Seq<(Seq<char>, Seq<char>)>>) -> Seq<u8> {
    match names {
        Some(s) => pairs_bytes(s),
        None => be2(0),
    }
}

/// Values in expressions; none where they are not given.
pub open spec fn values_bytes(values: Option<Attrs>) -> Seq<u8> {
    match values {
        Some(s) => key_bytes(s),
        None => be2(0),
    }
}

/// An optional condition with the names and values that it speaks of.
pub open spec fn condition_bytes(
    condition: Option<Seq<char>>,
    names: Option<Seq<(Seq<char>, Seq<char>)>>,
    values: Option<Attrs>,
) -> Seq<u8> {
    match condition {
        Some(t) => flag(true) + text_bytes(t) + names_bytes(names) + values_bytes(values),
        None => flag(false),
    }
}

/// The session and the table that every operation starts with.
pub open spec fn head(session: u64, table: Seq<char>) -> Seq<u8> {
    be8(session as int) + text_bytes(table)
}

/// Appends a truth value.
fn write_flag(buf: &mut BytesMut, b: bool)
    ensures
        appended(mut_contents(*old(buf)), mut_contents(*final(buf)), flag(b)),
{
    put_u8(
        buf,
        if b {
            1
        } else {
            0
        },
    );
    assert(mut_contents(*buf) =~= mut_contents(*old(buf)) + flag(b));
}

/// Appends an optional text.
fn write_optional_string(buf: &mut BytesMut, s: Option<&str>)
    ensures
        appended(mut_contents(*old(buf)), mut_contents(*final(buf)), opt_text_bytes(opt_str(s))),
{
    match s {
        Some(t) => {
            write_flag(buf, true);
            write_string(buf, t);
        },
        None => write_flag(buf, false),
    }
    assert(mut_contents(*buf) =~= mut_contents(*old(buf)) + opt_text_bytes(opt_str(s)));
}

/// Appends an optional number.
fn write_optional_u32(buf: &mut BytesMut, v: Option<u32>)
    ensures
        appended(mut_contents(*old(buf)), mut_contents(*final(buf)), opt_number_bytes(v)),
{
    match v {
        Some(n) => {
            write_flag(buf, true);
            put_u32(buf, n);
        },
        None => write_flag(buf, false),
    }
    assert(mut_contents(*buf) =~= mut_contents(*old(buf)) + opt_number_bytes(v));
}

/// Appends an optional key.
fn write_optional_key(buf: &mut BytesMut, key: Option<&Item>)
    ensures
        appended(mut_contents(*old(buf)), mut_contents(*final(buf)), opt_key_bytes(opt_attrs(key))),
{
    match key {
        Some(k) => {
            write_flag(buf, true);
            write_key(buf, k);
        },
        None => write_flag(buf, false),
    }
    assert(mut_contents(*buf) =~= mut_contents(*old(buf)) + opt_key_bytes(opt_attrs(key)));
}

/// Appends pairs of texts behind their number.
fn write_pairs(buf: &mut BytesMut, map: &StringMap)
    ensures
        appended(mut_contents(*old(buf)), mut_contents(*final(buf)), pairs_bytes(map.items())),
{
    let ghost s = map.items();
    let ghost start = mut_contents(*buf);
    let ghost mut done = be2(s.len() as int);
    let count: usize = map.len();
    put_u16(buf, low_u16(count));
    let mut i: usize = 0;
    assert(s.skip(0) =~= s);
    while i < count
        invariant
            i <= count,
            count == s.len(),
            s == map.items(),
            start == mut_contents(*old(buf)),
            mut_contents(*buf) =~= start + done,
            done + all_pairs(s.skip(i as int)) =~= pairs_bytes(s),
        decreases count - i,
    {
        assert(s.skip(i as int)[0] == s[i as int]);
        assert(s.skip(i as int).skip(1) =~= s.skip(i + 1));
        write_string(buf, map.key_at(i).as_str());
        write_string(buf, map.value_at(i).as_str());
        proof {
            done = done + text_bytes(s[i as int].0) + text_bytes(s[i as int].1);
        }
        i = i + 1;
    }
    assert(s.skip(i as int) =~= Seq::empty());
    assert(done + Seq::empty() =~= done);
}

/// Appends the names of attributes in expressions.
fn write_expr_attr_names(buf: &mut BytesMut, names: Option<&StringMap>)
    ensures
        appended(mut_contents(*old(buf)), mut_contents(*final(buf)), names_bytes(opt_pairs(names))),
{
    match names {
        Some(n) => write_pairs(buf, n),
        None => put_u16(buf, 0),
    }
}

/// Appends the values in expressions.
fn write_expr_attr_values(buf: &mut BytesMut, values: Option<&Item>)
    ensures
        appended(
            mut_contents(*old(buf)),
            mut_contents(*final(buf)),
            values_bytes(opt_attrs(values)),
        ),
{
    match values {
        Some(v) => write_key(buf, v),
        None => put_u16(buf, 0),
    }
}

/// Appends an optional condition.
fn write_optional_condition_expression(
    buf: &mut BytesMut,
    expression: Option<&str>,
    names: Option<&StringMap>,
    values: Option<&Item>,
)
    ensures
        appended(
            mut_contents(*old(buf)),
            mut_contents(*final(buf)),
            condition_bytes(opt_str(expression), opt_pairs(names), opt_attrs(values)),
        ),
{
    match expression {
        Some(expr) => {
            write_flag(buf, true);
            write_string(buf, expr);
            write_expr_attr_names(buf, names);
            write_expr_attr_values(buf, values);
        },
        None => write_flag(buf, false),
    }
    assert(mut_contents(*buf) =~= mut_contents(*old(buf)) + condition_bytes(
        opt_str(expression),
        opt_pairs(names),
        opt_attrs(values),
    ));
}

/// Encodes the parameters of a session.
pub fn encode_session_params(params: &StringMap) -> (buf: BytesMut)
    ensures
        mut_contents(buf) == pairs_bytes(params.items()),
{
    let mut buf: BytesMut = new_buffer();
    write_pairs(&mut buf, params);
    assert(mut_contents(buf) =~= pairs_bytes(params.items()));
    buf
}

/// Encodes a request that closes a session.
pub fn encode_close_session(session_id: AlternatorSessionId) -> (buf: BytesMut)
    ensures
        mut_contents(buf) == be8(session_id as int),
{
    let mut buf: BytesMut = new_buffer();
    put_u64(&mut buf, session_id);
    assert(mut_contents(buf) =~= be8(session_id as int));
    buf
}

/// A request's head.
fn start_request(session_id: AlternatorSessionId, table_name: &str) -> (buf: BytesMut)
    ensures
        mut_contents(buf) == head(session_id, table_name@),
{
    let mut buf: BytesMut = new_buffer();
    put_u64(&mut buf, session_id);
    write_string(&mut buf, table_name);
    assert(mut_contents(buf) =~= head(session_id, table_name@));
    buf
}

/// Encodes a GetItem request.
pub fn encode_get_item_request(
    session_id: AlternatorSessionId,
    table_name: &str,
    key: &Item,
    consistent_read: bool,
    projection_expression: Option<&str>,
    expression_attribute_names: Option<&StringMap>,
) -> (buf: BytesMut)
    ensures
        mut_contents(buf) == head(session_id, table_name@) + key_bytes(attrs(key@)) + flag(
            consistent_read,
        ) + opt_text_bytes(opt_str(projection_expression)) + names_bytes(
            opt_pairs(expression_attribute_names),
        ),
{
    let mut buf: BytesMut = start_request(session_id, table_name);
    write_key(&mut buf, key);
    write_flag(&mut buf, consistent_read);
    write_optional_string(&mut buf, projection_expression);
    write_expr_attr_names(&mut buf, expression_attribute_names);
    buf
}

/// Encodes a PutItem request.
pub fn encode_put_item_request(
    session_id: AlternatorSessionId,
    table_name: &str,
    item: &Item,
    condition_expression: Option<&str>,
    expression_attribute_names: Option<&StringMap>,
    expression_attribute_values: Option<&Item>,
    return_values: u8,
) -> (buf: BytesMut)
    ensures
        mut_contents(buf) == head(session_id, table_name@) + item_bytes(attrs(item@))
            + condition_bytes(
            opt_str(condition_expression),
            opt_pairs(expression_attribute_names),
            opt_attrs(expression_attribute_values),
        ) + seq![return_values],
{
    let mut buf: BytesMut = start_request(session_id, table_name);
    write_item(&mut buf, item);
    write_optional_condition_expression(
        &mut buf,
        condition_expression,
        expression_attribute_names,
        expression_attribute_values,
    );
    let ghost before = mut_contents(buf);
    put_u8(&mut buf, return_values);
    assert(mut_contents(buf) =~= before + seq![return_values]);
    buf
}

/// Encodes a DeleteItem request.
pub fn encode_delete_item_request(
    session_id: AlternatorSessionId,
    table_name: &str,
    key: &Item,
    condition_expression: Option<&str>,
    expression_attribute_names: Option<&StringMap>,
    expression_attribute_values: Option<&Item>,
    return_values: u8,
) -> (buf: BytesMut)
    ensures
        mut_contents(buf) == head(session_id, table_name@) + key_bytes(attrs(key@))
            + condition_bytes(
            opt_str(condition_expression),
            opt_pairs(expression_attribute_names),
            opt_attrs(expression_attribute_values),
        ) + seq![return_values],
{
    let mut buf: BytesMut = start_request(session_id, table_name);
    write_key(&mut buf, key);
    write_optional_condition_expression(
        &mut buf,
        condition_expression,
        expression_attribute_names,
        expression_attribute_values,
    );
    let ghost before = mut_contents(buf);
    put_u8(&mut buf, return_values);
    assert(mut_contents(buf) =~= before + seq![return_values]);
    buf
}

/// Encodes an UpdateItem request. The names and values are sent on their own,
/// and once more with a condition.
pub fn encode_update_item_request(
    session_id: AlternatorSessionId,
    table_name: &str,
    key: &Item,
    update_expression: &str,
    condition_expression: Option<&str>,
    expression_attribute_names: Option<&StringMap>,
    expression_attribute_values: Option<&Item>,
    return_values: u8,
) -> (buf: BytesMut)
    ensures
        mut_contents(buf) == head(session_id, table_name@) + key_bytes(attrs(key@)) + text_bytes(
            update_expression@,
        ) + condition_bytes(
            opt_str(condition_expression),
            opt_pairs(expression_attribute_names),
            opt_attrs(expression_attribute_values),
        ) + names_bytes(opt_pairs(expression_attribute_names)) + values_bytes(
            opt_attrs(expression_attribute_values),
        ) + seq![return_values],
{
    let mut buf: BytesMut = start_request(session_id, table_name);
    write_key(&mut buf, key);
    write_string(&mut buf, update_expression);
    write_optional_condition_expression(
        &mut buf,
        condition_expression,
        expression_attribute_names,
        expression_attribute_values,
    );
    write_expr_attr_names(&mut buf, expression_attribute_names);
    write_expr_attr_values(&mut buf, expression_attribute_values);
    let ghost before = mut_contents(buf);
    put_u8(&mut buf, return_values);
    assert(mut_contents(buf) =~= before + seq![return_values]);
    buf
}

/// Encodes a Query request.
pub fn encode_query_request(
    session_id: AlternatorSessionId,
    table_name: &str,
    index_name: Option<&str>,
    key_condition_expression: &str,
    filter_expression: Option<&str>,
    projection_expression: Option<&str>,
    expression_attribute_names: Option<&StringMap>,
    expression_attribute_values: Option<&Item>,
    limit: Option<u32>,
    consistent_read: bool,
    scan_index_forward: bool,
    exclusive_start_key: Option<&Item>,
) -> (buf: BytesMut)
    ensures
        mut_contents(buf) == head(session_id, table_name@) + opt_text_bytes(opt_str(index_name))
            + text_bytes(key_condition_expression@) + opt_text_bytes(opt_str(filter_expression))
            + opt_text_bytes(opt_str(projection_expression)) + names_bytes(
            opt_pairs(expression_attribute_names),
        ) + values_bytes(opt_attrs(expression_attribute_values)) + opt_number_bytes(limit) + flag(
            consistent_read,
        ) + flag(scan_index_forward) + opt_key_bytes(opt_attrs(exclusive_start_key)),
{
    let mut buf: BytesMut = start_request(session_id, table_name);
    write_optional_string(&mut buf, index_name);
    write_string(&mut buf, key_condition_expression);
    write_optional_string(&mut buf, filter_expression);
    write_optional_string(&mut buf, projection_expression);
    write_expr_attr_names(&mut buf, expression_attribute_names);
    write_expr_attr_values(&mut buf, expression_attribute_values);
    write_optional_u32(&mut buf, limit);
    write_flag(&mut buf, consistent_read);
    write_flag(&mut buf, scan_index_forward);
    write_optional_key(&mut buf, exclusive_start_key);
    buf
}

/// Encodes a Scan request.
pub fn encode_scan_request(
    session_id: AlternatorSessionId,
    table_name: &str,
    index_name: Option<&str>,
    filter_expression: Option<&str>,
    projection_expression: Option<&str>,
    expression_attribute_names: Option<&StringMap>,
    expression_attribute_values: Option<&Item>,
    limit: Option<u32>,
    consistent_read: bool,
    segment: Option<u32>,
    total_segments: Option<u32>,
    exclusive_start_key: Option<&Item>,
) -> (buf: BytesMut)
    ensures
        mut_contents(buf) == head(session_id, table_name@) + opt_text_bytes(opt_str(index_name))
            + opt_text_bytes(opt_str(filter_expression)) + opt_text_bytes(
            opt_str(projection_expression),
        ) + names_bytes(opt_pairs(expression_attribute_names)) + values_bytes(
            opt_attrs(expression_attribute_values),
        ) + opt_number_bytes(limit) + flag(consistent_read) + opt_number_bytes(segment)
            + opt_number_bytes(total_segments) + opt_key_bytes(opt_attrs(exclusive_start_key)),
{
    let mut buf: BytesMut = start_request(session_id, table_name);
    write_optional_string(&mut buf, index_name);
    write_optional_string(&mut buf, filter_expression);
    write_optional_string(&mut buf, projection_expression);
    write_expr_attr_names(&mut buf, expression_attribute_names);
    write_expr_attr_values(&mut buf, expression_attribute_values);
    write_optional_u32(&mut buf, limit);
    write_flag(&mut buf, consistent_read);
    write_optional_u32(&mut buf, segment);
    write_optional_u32(&mut buf, total_segments);
    write_optional_key(&mut buf, exclusive_start_key);
    buf
}

/// Keys, one behind the other.
pub open spec fn all_keys(s: Seq<Attrs>) -> Seq<u8>
    decreases s.len(),
{
    if s.len() == 0 {
        Seq::empty()
    } else {
        key_bytes(s[0]) + all_keys(s.skip(1))
    }
}

/// What is asked of a table: the number of keys, the keys, and how they are read.
pub open spec fn table_get_bytes(items: BatchGetRequestItems) -> Seq<u8> {
    be4(items.keys@.len() as int) + all_keys(items_of(items.keys@)) + flag(items.consistent_read)
        + opt_text_bytes(
        match items.projection_expression {
            Some(t) => Some(t@),
            None => None,
        },
    ) + names_bytes(
        match items.expression_attribute_names {
            Some(m) => Some(m.items()),
            None => None,
        },
    )
}

/// What is asked of tables, one behind the other.
pub open spec fn all_gets(s: Seq<(Seq<char>, BatchGetRequestItems)>) -> Seq<u8>
    decreases s.len(),
{
    if s.len() == 0 {
        Seq::empty()
    } else {
        text_bytes(s[0].0) + table_get_bytes(s[0].1) + all_gets(s.skip(1))
    }
}

/// Appends keys.
fn write_keys(buf: &mut BytesMut, keys: &Vec<Item>)
    ensures
        appended(mut_contents(*old(buf)), mut_contents(*final(buf)), all_keys(items_of(keys@))),
{
    let ghost s = items_of(keys@);
    let ghost start = mut_contents(*buf);
    let ghost mut done = Seq::<u8>::empty();
    let mut i: usize = 0;
    assert(s.skip(0) =~= s);
    assert(done + all_keys(s) =~= all_keys(s));
    while i < keys.len()
        invariant
            i <= keys@.len(),
            s == items_of(keys@),
            start == mut_contents(*old(buf)),
            mut_contents(*buf) =~= start + done,
            done + all_keys(s.skip(i as int)) =~= all_keys(s),
        decreases keys@.len() - i,
    {
        assert(s.skip(i as int)[0] == attrs(keys@[i as int]@));
        assert(s.skip(i as int).skip(1) =~= s.skip(i + 1));
        write_key(buf, &keys[i]);
        proof {
            done = done + key_bytes(s[i as int]);
        }
        i = i + 1;
    }
    assert(s.skip(i as int) =~= Seq::empty());
    assert(done + Seq::empty() =~= done);
}

/// Appends what is asked of a table.
fn write_table_get(buf: &mut BytesMut, items: &BatchGetRequestItems)
    ensures
        appended(mut_contents(*old(buf)), mut_contents(*final(buf)), table_get_bytes(*items)),
{
    put_u32(buf, low_u32(items.keys.len()));
    write_keys(buf, &items.keys);
    write_flag(buf, items.consistent_read);
    match &items.projection_expression {
        Some(t) => write_optional_string(buf, Some(t.as_str())),
        None => write_optional_string(buf, None),
    }
    match &items.expression_attribute_names {
        Some(m) => write_expr_attr_names(buf, Some(m)),
        None => write_expr_attr_names(buf, None),
    }
    assert(mut_contents(*buf) =~= mut_contents(*old(buf)) + table_get_bytes(*items));
}

/// Encodes a BatchGetItem request.
pub fn encode_batch_get_request(
    session_id: AlternatorSessionId,
    request_items: &TextMap<BatchGetRequestItems>,
) -> (buf: BytesMut)
    ensures
        mut_contents(buf) == be8(session_id as int) + be2(request_items.items().len() as int)
            + all_gets(request_items.items()),
{
    let ghost s = request_items.items();
    let mut buf: BytesMut = new_buffer();
    put_u64(&mut buf, session_id);
    let count: usize = request_items.len();
    put_u16(&mut buf, low_u16(count));
    let ghost start = be8(session_id as int) + be2(s.len() as int);
    let ghost mut done = Seq::<u8>::empty();
    let mut i: usize = 0;
    assert(mut_contents(buf) =~= start + done);
    assert(s.skip(0) =~= s);
    assert(done + all_gets(s) =~= all_gets(s));
    while i < count
        invariant
            i <= count,
            count == s.len(),
            s == request_items.items(),
            mut_contents(buf) =~= start + done,
            done + all_gets(s.skip(i as int)) =~= all_gets(s),
        decreases count - i,
    {
        assert(s.skip(i as int)[0] == s[i as int]);
        assert(s.skip(i as int).skip(1) =~= s.skip(i + 1));
        write_string(&mut buf, request_items.key_at(i).as_str());
        write_table_get(&mut buf, request_items.value_at(i));
        proof {
            done = done + text_bytes(s[i as int].0) + table_get_bytes(s[i as int].1);
        }
        i = i + 1;
    }
    assert(s.skip(i as int) =~= Seq::empty());
    assert(done + Seq::empty() =~= done);
    buf
}

/// A write: a tag, and the item that is put or the key that is deleted.
pub open spec fn write_bytes(w: BatchWriteRequest) -> Seq<u8> {
    match w {
        BatchWriteRequest::Put(item) => seq![0x01u8] + item_bytes(attrs(item@)),
        BatchWriteRequest::Delete(key) => seq![0x02u8] + key_bytes(attrs(key@)),
    }
}

/// Writes, one behind the other.
pub open spec fn all_writes(s: Seq<BatchWriteRequest>) -> Seq<u8>
    decreases s.len(),
{
    if s.len() == 0 {
        Seq::empty()
    } else {
        write_bytes(s[0]) + all_writes(s.skip(1))
    }
}

/// Writes behind their number.
pub open spec fn table_write_bytes(s: Seq<BatchWriteRequest>) -> Seq<u8> {
    be4(s.len() as int) + all_writes(s)
}

/// Writes to tables, one table behind the other.
pub open spec fn all_table_writes(s: Seq<(Seq<char>, Vec<BatchWriteRequest>)>) -> Seq<u8>
    decreases s.len(),
{
    if s.len() == 0 {
        Seq::empty()
    } else {
        text_bytes(s[0].0) + table_write_bytes(s[0].1@) + all_table_writes(s.skip(1))
    }
}

/// Appends a write.
fn write_request(buf: &mut BytesMut, w: &BatchWriteRequest)
    ensures
        appended(mut_contents(*old(buf)), mut_contents(*final(buf)), write_bytes(*w)),
{
    match w {
        BatchWriteRequest::Put(item) => {
            put_u8(buf, 0x01);
            write_item(buf, item);
        },
        BatchWriteRequest::Delete(key) => {
            put_u8(buf, 0x02);
            write_key(buf, key);
        },
    }
    assert(mut_contents(*buf) =~= mut_contents(*old(buf)) + write_bytes(*w));
}

/// Appends writes behind their number.
fn write_requests(buf: &mut BytesMut, writes: &Vec<BatchWriteRequest>)
    ensures
        appended(mut_contents(*old(buf)), mut_contents(*final(buf)), table_write_bytes(writes@)),
{
    let ghost s = writes@;
    let ghost start = mut_contents(*buf);
    let ghost mut done = be4(s.len() as int);
    put_u32(buf, low_u32(writes.len()));
    let mut i: usize = 0;
    assert(s.skip(0) =~= s);
    while i < writes.len()
        invariant
            i <= writes@.len(),
            s == writes@,
            start == mut_contents(*old(buf)),
            mut_contents(*buf) =~= start + done,
            done + all_writes(s.skip(i as int)) =~= table_write_bytes(s),
        decreases writes@.len() - i,
    {
        assert(s.skip(i as int)[0] == s[i as int]);
        assert(s.skip(i as int).skip(1) =~= s.skip(i + 1));
        write_request(buf, &writes[i]);
        proof {
            done = done + write_bytes(s[i as int]);
        }
        i = i + 1;
    }
    assert(s.skip(i as int) =~= Seq::empty());
    assert(done + Seq::empty() =~= done);
}

/// Encodes a BatchWriteItem request.
pub fn encode_batch_write_request(
    session_id: AlternatorSessionId,
    request_items: &TextMap<Vec<BatchWriteRequest>>,
) -> (buf: BytesMut)
    ensures
        mut_contents(buf) == be8(session_id as int) + be2(request_items.items().len() as int)
            + all_table_writes(request_items.items()),
{
    let ghost s = request_items.items();
    let mut buf: BytesMut = new_buffer();
    put_u64(&mut buf, session_id);
    let count: usize = request_items.len();
    put_u16(&mut buf, low_u16(count));
    let ghost start = be8(session_id as int) + be2(s.len() as int);
    let ghost mut done = Seq::<u8>::empty();
    let mut i: usize = 0;
    assert(mut_contents(buf) =~= start + done);
    assert(s.skip(0) =~= s);
    assert(done + all_table_writes(s) =~= all_table_writes(s));
    while i < count
        invariant
            i <= count,
            count == s.len(),
            s == request_items.items(),
            mut_contents(buf) =~= start + done,
            done + all_table_writes(s.skip(i as int)) =~= all_table_writes(s),
        decreases count - i,
    {
        assert(s.skip(i as int)[0] == s[i as int]);
        assert(s.skip(i as int).skip(1) =~= s.skip(i + 1));
        write_string(&mut buf, request_items.key_at(i).as_str());
        write_requests(&mut buf, request_items.value_at(i));
        proof {
            done = done + text_bytes(s[i as int].0) + table_write_bytes(s[i as int].1@);
        }
        i = i + 1;
    }
    assert(s.skip(i as int) =~= Seq::empty());
    assert(done + Seq::empty() =~= done);
    buf
}

} // verus!
