//! What the replies of an Alternator adapter are read as.

use super::alternator_client::{write_bytes, BatchWriteRequest};
use super::alternator_codec::{item_at, item_bytes, key_at, key_bytes, text_bytes, u32_at};
use super::alternator_laws::{
    attrs_readable, countable, law_item_round_trip, law_key_round_trip, lemma_text, max_length,
};
use super::alternator_protocol::{error_of, error_text, ResponseOpcode};
use super::alternator_results::{
    batch_get_of, batch_write_of, counted_rows_at, counted_tables_at, item_result_of, latency_at,
    opt_item_at, opt_key_at, query_result_of, refusal, rows_at, table_writes_at, tables_at,
    writes_at, Page, Refusal, Tables,
};
use super::attribute::{attrs, Attrs};
use crate::error::CodecError;
use crate::reader::At;
use crate::text::lemma_utf8_round_trip;
use crate::wire::{be2, be4, be8, lemma_be2, lemma_be4, lemma_be8};
use vstd::prelude::*;
use vstd::string::*;
use vstd::utf8::encode_utf8;

verus! {

broadcast use crate::wire::group_be;

/// An item, or a key, that can be read back.
pub open spec fn row_readable(row: Attrs, keys: bool) -> bool {
    attrs_readable(row) && row.len() <= if keys {
        0xFFFF
    } else {
        max_length()
    }
}

/// Items, or keys, that can be read back.
pub open spec fn rows_readable(rows: Seq<Attrs>, keys: bool) -> bool {
    rows.len() <= max_length() && forall|i: int|
        0 <= i < rows.len() ==> row_readable(#[trigger] rows[i], keys)
}

/// An item, or a key, as an adapter sends it.
pub open spec fn row_sent(row: Attrs, keys: bool) -> Seq<u8> {
    if keys {
        key_bytes(row)
    } else {
        item_bytes(row)
    }
}

/// Items, or keys, one behind the other.
pub open spec fn rows_in_line(rows: Seq<Attrs>, keys: bool) -> Seq<u8>
    decreases rows.len(),
{
    if rows.len() == 0 {
        Seq::empty()
    } else {
        row_sent(rows[0], keys) + rows_in_line(rows.skip(1), keys)
    }
}

/// Items, or keys, behind their number.
pub open spec fn rows_sent(rows: Seq<Attrs>, keys: bool) -> Seq<u8> {
    be4(rows.len() as int) + rows_in_line(rows, keys)
}

/// The first of some rows is read.
proof fn lemma_first_row(row: Attrs, n: nat, keys: bool, done: Seq<Attrs>, tail: Seq<u8>)
    requires
        row_readable(row, keys),
        n > 0,
    ensures
        rows_at(row_sent(row, keys) + tail, n, keys, done) == rows_at(
            tail,
            (n - 1) as nat,
            keys,
            done.push(row),
        ),
{
    if keys {
        law_key_round_trip(row, tail);
    } else {
        law_item_round_trip(row, tail);
    }
}

/// Rows are read behind those that are there.
proof fn lemma_rows(rows: Seq<Attrs>, keys: bool, done: Seq<Attrs>, rest: Seq<u8>)
    requires
        forall|i: int| 0 <= i < rows.len() ==> row_readable(#[trigger] rows[i], keys),
    ensures
        rows_at(rows_in_line(rows, keys) + rest, rows.len(), keys, done) == At::<Seq<Attrs>>::Ok(
            (done + rows, rest),
        ),
    decreases rows.len(),
{
    if rows.len() == 0 {
        assert(rows_in_line(rows, keys) + rest =~= rest);
        assert(done + rows =~= done);
    } else {
        let more = rows.skip(1);
        let tail = rows_in_line(more, keys) + rest;
        assert(rows_in_line(rows, keys) + rest =~= row_sent(rows[0], keys) + tail);
        lemma_first_row(rows[0], rows.len(), keys, done, tail);
        assert(forall|i: int| 0 <= i < more.len() ==> more[i] == rows[i + 1]);
        lemma_rows(more, keys, done.push(rows[0]), rest);
        assert(done.push(rows[0]) + more =~= done + rows);
    }
}

/// Items, or keys, that were sent behind their number are read in their
/// order: as many as the number says, and no byte behind them.
pub proof fn law_rows_are_read(rows: Seq<Attrs>, keys: bool, rest: Seq<u8>)
    requires
        rows_readable(rows, keys),
    ensures
        counted_rows_at(rows_sent(rows, keys) + rest, keys) == At::<Seq<Attrs>>::Ok((rows, rest)),
{
    let tail = rows_in_line(rows, keys) + rest;
    assert(rows_sent(rows, keys) + rest =~= be4(rows.len() as int) + tail);
    lemma_be4(rows.len() as int, tail);
    lemma_rows(rows, keys, Seq::empty(), rest);
    assert(Seq::empty() + rows =~= rows);
}

/// However a page was made, it has as many items as its number says.
pub proof fn law_page_has_its_number_of_items(s: Seq<u8>, keys: bool)
    ensures
        counted_rows_at(s, keys) matches Ok((rows, rest)) ==> {
            &&& Ok::<u32, CodecError>(rows.len() as u32) == (match u32_at(s) {
                Ok((n, _)) => Ok::<u32, CodecError>(n),
                Err(e) => Err(e),
            })
            &&& rows.len() <= u32::MAX
        },
{
    if let Ok((n, rest)) = u32_at(s) {
        lemma_number_of_rows(rest, n as nat, keys, Seq::empty());
    }
}

/// Rows are read one behind the other.
proof fn lemma_number_of_rows(s: Seq<u8>, n: nat, keys: bool, done: Seq<Attrs>)
    ensures
        rows_at(s, n, keys, done) matches Ok((rows, _)) ==> rows.len() == done.len() + n
            && rows.take(done.len() as int) == done,
    decreases n,
{
    if n > 0 {
        let read = if keys {
            key_at(s)
        } else {
            item_at(s)
        };
        if let Ok((row, rest)) = read {
            lemma_number_of_rows(rest, (n - 1) as nat, keys, done.push(row));
            if let Ok((rows, _)) = rows_at(s, n, keys, done) {
                assert(rows.take(done.len() as int) =~= rows.take(done.len() as int + 1).take(
                    done.len() as int,
                ));
                assert(done.push(row).take(done.len() as int) =~= done);
            }
        }
    } else {
        assert(done.take(done.len() as int) =~= done);
    }
}

/// An optional row behind a byte that says whether it is there.
pub open spec fn opt_row_sent(row: Option<Attrs>, flag: u8, keys: bool) -> Seq<u8> {
    match row {
        Some(r) => seq![flag] + row_sent(r, keys),
        None => seq![0u8],
    }
}

/// An optional row that can be read back, with a byte that says that it is there.
pub open spec fn opt_row_readable(row: Option<Attrs>, flag: u8, keys: bool) -> bool {
    row matches Some(r) ==> row_readable(r, keys) && flag != 0
}

/// An optional item or key is read as it was sent.
pub proof fn law_optional_row_is_read(row: Option<Attrs>, flag: u8, keys: bool, rest: Seq<u8>)
    requires
        opt_row_readable(row, flag, keys),
    ensures
        keys ==> opt_key_at(opt_row_sent(row, flag, keys) + rest) == At::<Option<Attrs>>::Ok(
            (row, rest),
        ),
        !keys ==> opt_item_at(opt_row_sent(row, flag, keys) + rest) == At::<Option<Attrs>>::Ok(
            (row, rest),
        ),
{
    let s = opt_row_sent(row, flag, keys) + rest;
    match row {
        None => {
            assert(s.skip(1) =~= rest);
        },
        Some(r) => {
            assert(s.skip(1) =~= row_sent(r, keys) + rest);
            if keys {
                law_key_round_trip(r, rest);
            } else {
                law_item_round_trip(r, rest);
            }
        },
    }
}

/// The latency at the end of a reply, behind a byte that is not looked at.
pub open spec fn latency_sent(flag: u8, latency: i64) -> Seq<u8> {
    seq![flag] + be8(latency as int)
}

/// The latency is read as it was sent.
proof fn lemma_latency(flag: u8, latency: i64, rest: Seq<u8>)
    ensures
        latency_at(latency_sent(flag, latency) + rest) == Ok::<i64, CodecError>(latency),
{
    let s = latency_sent(flag, latency) + rest;
    assert(s.skip(1) =~= be8(latency as int) + rest);
    lemma_be8(latency as int, rest);
}

/// The reply to a single-item operation is read as it was sent.
pub proof fn law_item_result_is_read(
    item: Option<Attrs>,
    flag: u8,
    capacity: u8,
    latency: i64,
    rest: Seq<u8>,
)
    requires
        opt_row_readable(item, flag, false),
    ensures
        item_result_of(opt_row_sent(item, flag, false) + latency_sent(capacity, latency) + rest)
            == Ok::<(Option<Attrs>, i64), CodecError>((item, latency)),
{
    let tail = latency_sent(capacity, latency) + rest;
    assert(opt_row_sent(item, flag, false) + latency_sent(capacity, latency) + rest
        =~= opt_row_sent(item, flag, false) + tail);
    law_optional_row_is_read(item, flag, false, tail);
    lemma_latency(capacity, latency, rest);
}

/// The reply to a query or a scan is read as it was sent: every item, the key
/// that the next page starts behind, the number of items that were looked at
/// and the latency.
pub proof fn law_page_is_read(page: Page, flag: u8, capacity: u8, rest: Seq<u8>)
    requires
        rows_readable(page.items, false),
        opt_row_readable(page.last_key, flag, true),
    ensures
        query_result_of(
            rows_sent(page.items, false) + opt_row_sent(page.last_key, flag, true) + be4(
                page.scanned as int,
            ) + latency_sent(capacity, page.latency) + rest,
        ) == Ok::<Page, CodecError>(page),
{
    let s3 = latency_sent(capacity, page.latency) + rest;
    let s2 = be4(page.scanned as int) + s3;
    let s1 = opt_row_sent(page.last_key, flag, true) + s2;
    assert(rows_sent(page.items, false) + opt_row_sent(page.last_key, flag, true) + be4(
        page.scanned as int,
    ) + latency_sent(capacity, page.latency) + rest =~= rows_sent(page.items, false) + s1);
    law_rows_are_read(page.items, false, s1);
    law_optional_row_is_read(page.last_key, flag, true, s2);
    lemma_be4(page.scanned as int, s3);
    lemma_latency(capacity, page.latency, rest);
}

/// Tables with their rows, one behind the other.
pub open spec fn tables_in_line(tables: Seq<(Seq<char>, Seq<Attrs>)>, keys: bool) -> Seq<u8>
    decreases tables.len(),
{
    if tables.len() == 0 {
        Seq::empty()
    } else {
        text_bytes(tables[0].0) + rows_sent(tables[0].1, keys) + tables_in_line(
            tables.skip(1),
            keys,
        )
    }
}

/// Tables with their rows behind their number.
pub open spec fn tables_sent(tables: Seq<(Seq<char>, Seq<Attrs>)>, keys: bool) -> Seq<u8> {
    be2(tables.len() as int) + tables_in_line(tables, keys)
}

/// Tables that can be read back, none of them twice.
pub open spec fn tables_readable(tables: Seq<(Seq<char>, Seq<Attrs>)>, keys: bool) -> bool {
    &&& tables.len() <= 0xFFFF
    &&& forall|i: int|
        0 <= i < tables.len() ==> countable((#[trigger] tables[i]).0) && rows_readable(
            tables[i].1,
            keys,
        )
    &&& forall|i: int, j: int|
        0 <= i < j < tables.len() ==> (#[trigger] tables[i]).0 != (#[trigger] tables[j]).0
}

/// A map holds exactly these tables, each with its rows.
pub open spec fn holds_tables(m: Tables, tables: Seq<(Seq<char>, Seq<Attrs>)>) -> bool {
    &&& forall|i: int|
        0 <= i < tables.len() ==> m.dom().contains((#[trigger] tables[i]).0) && m[tables[i].0]
            == tables[i].1
    &&& forall|name: Seq<char>| #[trigger]
        m.dom().contains(name) ==> exists|i: int|
            0 <= i < tables.len() && (#[trigger] tables[i]).0 == name
}

/// The tables over those that are there.
pub open spec fn over(done: Tables, tables: Seq<(Seq<char>, Seq<Attrs>)>) -> Tables
    decreases tables.len(),
{
    if tables.len() == 0 {
        done
    } else {
        over(done.insert(tables[0].0, tables[0].1), tables.skip(1))
    }
}

/// The first of some tables is read.
proof fn lemma_first_table(
    name: Seq<char>,
    rows: Seq<Attrs>,
    n: nat,
    keys: bool,
    done: Tables,
    tail: Seq<u8>,
)
    requires
        countable(name),
        rows_readable(rows, keys),
        n > 0,
    ensures
        tables_at(text_bytes(name) + rows_sent(rows, keys) + tail, n, keys, done) == tables_at(
            tail,
            (n - 1) as nat,
            keys,
            done.insert(name, rows),
        ),
{
    let rest = rows_sent(rows, keys) + tail;
    assert(text_bytes(name) + rows_sent(rows, keys) + tail =~= text_bytes(name) + rest);
    lemma_text(name, rest);
    law_rows_are_read(rows, keys, tail);
}

/// Tables are read over those that are there.
proof fn lemma_tables(
    tables: Seq<(Seq<char>, Seq<Attrs>)>,
    keys: bool,
    done: Tables,
    rest: Seq<u8>,
)
    requires
        tables_readable(tables, keys),
    ensures
        tables_at(tables_in_line(tables, keys) + rest, tables.len(), keys, done) == At::<
            Tables,
        >::Ok((over(done, tables), rest)),
    decreases tables.len(),
{
    if tables.len() == 0 {
        assert(tables_in_line(tables, keys) + rest =~= rest);
    } else {
        let more = tables.skip(1);
        let tail = tables_in_line(more, keys) + rest;
        assert(tables_in_line(tables, keys) + rest =~= text_bytes(tables[0].0) + rows_sent(
            tables[0].1,
            keys,
        ) + tail);
        lemma_first_table(tables[0].0, tables[0].1, tables.len(), keys, done, tail);
        assert(forall|i: int| 0 <= i < more.len() ==> more[i] == tables[i + 1]);
        lemma_tables(more, keys, done.insert(tables[0].0, tables[0].1), rest);
    }
}

/// Tables that differ are all there, over those that were there.
proof fn lemma_over(done: Tables, tables: Seq<(Seq<char>, Seq<Attrs>)>)
    requires
        forall|i: int, j: int|
            0 <= i < j < tables.len() ==> (#[trigger] tables[i]).0 != (#[trigger] tables[j]).0,
    ensures
        forall|i: int|
            0 <= i < tables.len() ==> over(done, tables).dom().contains((#[trigger] tables[i]).0)
                && over(done, tables)[tables[i].0] == tables[i].1,
        forall|name: Seq<char>| #[trigger]
            over(done, tables).dom().contains(name) <==> done.dom().contains(name)
                || exists|i: int| 0 <= i < tables.len() && (#[trigger] tables[i]).0 == name,
        forall|name: Seq<char>|
            done.dom().contains(name) && (forall|i: int|
                0 <= i < tables.len() ==> (#[trigger] tables[i]).0 != name) ==> #[trigger] over(
                done,
                tables,
            )[name] == done[name],
    decreases tables.len(),
{
    if tables.len() > 0 {
        let more = tables.skip(1);
        let now = done.insert(tables[0].0, tables[0].1);
        let m = over(done, tables);
        assert(forall|i: int| 0 <= i < more.len() ==> more[i] == tables[i + 1]);
        lemma_over(now, more);
        assert(m == over(now, more));
        assert forall|i: int| 0 <= i < tables.len() implies m.dom().contains(
            (#[trigger] tables[i]).0,
        ) && m[tables[i].0] == tables[i].1 by {
            if i > 0 {
                assert(more[i - 1] == tables[i]);
            } else {
                let name = tables[0].0;
                assert(now.dom().contains(name));
                assert forall|k: int| 0 <= k < more.len() implies (#[trigger] more[k]).0
                    != name by {
                    assert(more[k] == tables[k + 1]);
                    assert(tables[0].0 != tables[k + 1].0);
                }
                assert(over(now, more)[name] == now[name]);
                assert(m[tables[0].0] == now[tables[0].0]);
            }
        }
        assert forall|name: Seq<char>| #[trigger] m.dom().contains(name) <==> done.dom().contains(
            name,
        ) || exists|i: int| 0 <= i < tables.len() && (#[trigger] tables[i]).0 == name by {
            if exists|i: int| 0 <= i < more.len() && (#[trigger] more[i]).0 == name {
                let i = choose|i: int| 0 <= i < more.len() && (#[trigger] more[i]).0 == name;
                assert(tables[i + 1].0 == name);
            }
            if exists|i: int| 0 <= i < tables.len() && (#[trigger] tables[i]).0 == name {
                let i = choose|i: int| 0 <= i < tables.len() && (#[trigger] tables[i]).0 == name;
                if i > 0 {
                    assert(more[i - 1].0 == name);
                }
            }
        }
        assert forall|name: Seq<char>|
            done.dom().contains(name) && (forall|i: int|
                0 <= i < tables.len() ==> (#[trigger] tables[i]).0 != name) implies #[trigger] m[name]
            == done[name] by {
            assert(tables[0].0 != name);
            assert(now[name] == done[name]);
            assert forall|k: int| 0 <= k < more.len() implies (#[trigger] more[k]).0 != name by {
                assert(more[k] == tables[k + 1]);
            }
        }
    }
}

/// Tables that were sent behind their number are read, each with its rows,
/// and no others.
pub proof fn law_tables_are_read(
    tables: Seq<(Seq<char>, Seq<Attrs>)>,
    keys: bool,
    rest: Seq<u8>,
)
    requires
        tables_readable(tables, keys),
    ensures
        counted_tables_at(tables_sent(tables, keys) + rest, keys) matches Ok((m, left)) && left
            == rest && holds_tables(m, tables),
{
    let tail = tables_in_line(tables, keys) + rest;
    assert(tables_sent(tables, keys) + rest =~= be2(tables.len() as int) + tail);
    lemma_be2(tables.len() as int, tail);
    lemma_tables(tables, keys, Map::empty(), rest);
    lemma_over(Map::empty(), tables);
}

/// The reply to a BatchGetItem operation is read as it was sent: the items of
/// each table, the keys of each table that were not read, and the latency.
pub proof fn law_batch_get_is_read(
    responses: Seq<(Seq<char>, Seq<Attrs>)>,
    unprocessed: Seq<(Seq<char>, Seq<Attrs>)>,
    capacity: u8,
    latency: i64,
    rest: Seq<u8>,
)
    requires
        tables_readable(responses, false),
        tables_readable(unprocessed, true),
    ensures
        batch_get_of(
            tables_sent(responses, false) + tables_sent(unprocessed, true) + latency_sent(
                capacity,
                latency,
            ) + rest,
        ) matches Ok((got, left, n)) && holds_tables(got, responses) && holds_tables(
            left,
            unprocessed,
        ) && n == latency,
{
    let s2 = latency_sent(capacity, latency) + rest;
    let s1 = tables_sent(unprocessed, true) + s2;
    assert(tables_sent(responses, false) + tables_sent(unprocessed, true) + latency_sent(
        capacity,
        latency,
    ) + rest =~= tables_sent(responses, false) + s1);
    law_tables_are_read(responses, false, s1);
    law_tables_are_read(unprocessed, true, s2);
    lemma_latency(capacity, latency, rest);
}

/// A write that can be read.
pub open spec fn write_readable(w: BatchWriteRequest) -> bool {
    match w {
        BatchWriteRequest::Put(item) => row_readable(attrs(item@), false),
        BatchWriteRequest::Delete(key) => row_readable(attrs(key@), true),
    }
}

/// Writes, one behind the other.
pub open spec fn writes_in_line(s: Seq<BatchWriteRequest>) -> Seq<u8>
    decreases s.len(),
{
    if s.len() == 0 {
        Seq::empty()
    } else {
        write_bytes(s[0]) + writes_in_line(s.skip(1))
    }
}

/// Writes are passed over.
proof fn lemma_writes(s: Seq<BatchWriteRequest>, rest: Seq<u8>)
    requires
        all_writes_readable(s),
    ensures
        writes_at(writes_in_line(s) + rest, s.len()) == Ok::<Seq<u8>, CodecError>(rest),
    decreases s.len(),
{
    if s.len() == 0 {
        assert(writes_in_line(s) + rest =~= rest);
    } else {
        let more = s.skip(1);
        let tail = writes_in_line(more) + rest;
        let whole = writes_in_line(s) + rest;
        assert(whole =~= write_bytes(s[0]) + tail);
        assert(write_readable(s[0]));
        match s[0] {
            BatchWriteRequest::Put(item) => {
                assert(whole.skip(1) =~= item_bytes(attrs(item@)) + tail);
                law_item_round_trip(attrs(item@), tail);
            },
            BatchWriteRequest::Delete(key) => {
                assert(whole.skip(1) =~= key_bytes(attrs(key@)) + tail);
                law_key_round_trip(attrs(key@), tail);
            },
        }
        assert(forall|i: int| 0 <= i < more.len() ==> more[i] == s[i + 1]);
        lemma_writes(more, rest);
    }
}

/// Writes to tables, one table behind the other.
pub open spec fn table_writes_in_line(s: Seq<(Seq<char>, Seq<BatchWriteRequest>)>) -> Seq<u8>
    decreases s.len(),
{
    if s.len() == 0 {
        Seq::empty()
    } else {
        text_bytes(s[0].0) + be4(s[0].1.len() as int) + writes_in_line(s[0].1)
            + table_writes_in_line(s.skip(1))
    }
}

/// Writes to tables that can be read.
pub open spec fn table_writes_readable(s: Seq<(Seq<char>, Seq<BatchWriteRequest>)>) -> bool {
    forall|i: int|
        0 <= i < s.len() ==> countable((#[trigger] s[i]).0) && s[i].1.len() <= max_length()
            && all_writes_readable(s[i].1)
}

/// Writes that can be read.
pub open spec fn all_writes_readable(s: Seq<BatchWriteRequest>) -> bool {
    forall|i: int| 0 <= i < s.len() ==> write_readable(#[trigger] s[i])
}

/// The writes to the first of some tables are passed over.
proof fn lemma_first_table_writes(
    table: Seq<char>,
    writes: Seq<BatchWriteRequest>,
    n: nat,
    tail: Seq<u8>,
)
    requires
        countable(table),
        writes.len() <= max_length(),
        all_writes_readable(writes),
        n > 0,
    ensures
        table_writes_at(
            text_bytes(table) + (be4(writes.len() as int) + (writes_in_line(writes) + tail)),
            n,
        ) == table_writes_at(tail, (n - 1) as nat),
{
    let s2 = writes_in_line(writes) + tail;
    let s1 = be4(writes.len() as int) + s2;
    lemma_text(table, s1);
    lemma_be4(writes.len() as int, s2);
    lemma_writes(writes, tail);
}

/// Writes to tables are passed over.
proof fn lemma_table_writes(s: Seq<(Seq<char>, Seq<BatchWriteRequest>)>, rest: Seq<u8>)
    requires
        table_writes_readable(s),
    ensures
        table_writes_at(table_writes_in_line(s) + rest, s.len()) == Ok::<Seq<u8>, CodecError>(rest),
    decreases s.len(),
{
    if s.len() == 0 {
        assert(table_writes_in_line(s) + rest =~= rest);
    } else {
        let more = s.skip(1);
        let tail = table_writes_in_line(more) + rest;
        assert(table_writes_in_line(s) + rest =~= text_bytes(s[0].0) + (be4(s[0].1.len() as int)
            + (writes_in_line(s[0].1) + tail)));
        assert(table_writes_readable(s));
        lemma_first_table_writes(s[0].0, s[0].1, s.len(), tail);
        assert forall|i: int| 0 <= i < more.len() implies countable((#[trigger] more[i]).0)
            && more[i].1.len() <= max_length() && all_writes_readable(more[i].1) by {
            assert(more[i] == s[i + 1]);
        }
        lemma_table_writes(more, rest);
    }
}

/// Of the reply to a BatchWriteItem operation the number of tables with writes
/// that were not made is read, and the latency behind all of them.
pub proof fn law_batch_write_is_read(
    responses: Seq<(Seq<char>, Seq<Attrs>)>,
    keys: Seq<(Seq<char>, Seq<Attrs>)>,
    writes: Seq<(Seq<char>, Seq<BatchWriteRequest>)>,
    capacity: u8,
    latency: i64,
    rest: Seq<u8>,
)
    requires
        tables_readable(responses, false),
        tables_readable(keys, true),
        table_writes_readable(writes),
        writes.len() <= 0xFFFF,
    ensures
        batch_write_of(
            tables_sent(responses, false) + tables_sent(keys, true) + be2(writes.len() as int)
                + table_writes_in_line(writes) + latency_sent(capacity, latency) + rest,
        ) == Ok::<(u16, i64), CodecError>((writes.len() as u16, latency)),
{
    let s4 = latency_sent(capacity, latency) + rest;
    let s3 = table_writes_in_line(writes) + s4;
    let s2 = be2(writes.len() as int) + s3;
    let s1 = tables_sent(keys, true) + s2;
    assert(tables_sent(responses, false) + tables_sent(keys, true) + be2(writes.len() as int)
        + table_writes_in_line(writes) + latency_sent(capacity, latency) + rest =~= tables_sent(
        responses,
        false,
    ) + s1);
    law_tables_are_read(responses, false, s1);
    law_tables_are_read(keys, true, s2);
    lemma_be2(writes.len() as int, s3);
    lemma_table_writes(writes, s4);
    lemma_latency(capacity, latency, rest);
}

/// A reply with the opcode that is wanted is not refused; one with another
/// opcode is, with that opcode, and so is one with an unknown number.
pub proof fn law_wanted_replies_are_taken(wanted: ResponseOpcode, got: u8, body: Seq<u8>)
    requires
        wanted != ResponseOpcode::Error,
    ensures
        refusal(got, body, wanted) is None <==> got == wanted.number(),
        forall|o: ResponseOpcode|
            o != wanted && o != ResponseOpcode::Error && got == #[trigger] o.number() ==> refusal(
                got,
                body,
                wanted,
            ) == Some(Refusal::UnexpectedOpcode(o)),
        got == ResponseOpcode::Error.number() ==> refusal(got, body, wanted) is Some && refusal(
            got,
            body,
            wanted,
        )->0 is Failed,
        (forall|o: ResponseOpcode| #[trigger] o.number() != got) ==> refusal(got, body, wanted)
            == Some(Refusal::UnknownOpcode(got)),
{
    if let Some(o) = ResponseOpcode::of_number(got) {
        assert(o.number() == got);
    }
}

/// The code, the type and the message of an error are read as they were sent,
/// and a reply that carries them is refused with them.
pub proof fn law_error_is_read(
    code: u32,
    kind: Seq<char>,
    message: Seq<char>,
    wanted: ResponseOpcode,
    rest: Seq<u8>,
)
    requires
        countable(kind),
        countable(message),
    ensures
        error_of(be4(code as int) + text_bytes(kind) + text_bytes(message) + rest) == (
            code,
            kind,
            message,
        ),
        refusal(
            ResponseOpcode::Error.number(),
            be4(code as int) + text_bytes(kind) + text_bytes(message) + rest,
            wanted,
        ) == Some(Refusal::Failed(code, kind, message)),
{
    let s2 = text_bytes(message) + rest;
    let s1 = text_bytes(kind) + s2;
    let body = be4(code as int) + text_bytes(kind) + text_bytes(message) + rest;
    assert(body =~= be4(code as int) + s1);
    lemma_be4(code as int, s1);
    lemma_error_text(kind, s2, "UnknownError"@);
    lemma_error_text(message, rest, "unknown error"@);
}

/// A text of an error is read as it was sent.
proof fn lemma_error_text(t: Seq<char>, rest: Seq<u8>, fallback: Seq<char>)
    requires
        countable(t),
    ensures
        error_text(text_bytes(t) + rest, fallback) == (t, rest),
{
    let b = encode_utf8(t);
    let s = text_bytes(t) + rest;
    assert(s =~= be4(b.len() as int) + (b + rest));
    lemma_be4(b.len() as int, b + rest);
    lemma_utf8_round_trip(t);
    assert(s.subrange(4, 4 + b.len() as int) =~= b);
    assert(s.skip(4 + b.len() as int) =~= rest);
}

} // verus!
