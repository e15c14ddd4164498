//! Which requests and values a client sends.

use super::driver_integration::{all_plain, plain_bytes, plain_execute_body, plain_values};
use super::encode::type_code_of;
use super::frames::{
    all_row_bytes, cell, column_head, column_heads, row_bytes, rows_body, ColumnSpec,
};
use crate::error::{Coded, CodecError};
use crate::ipc::client::{
    all_encoded, batch_body, batch_statements, execute_body, map_strings, prepare_body,
    short_string, string_map_bytes, values_bytes,
};
use crate::ipc::encode::{
    encoded, entry_tails, is_packed, list_tails, max_len, opt_tail, opt_tails, tail, tails,
};
use crate::value::{vals, Consistency, CqlValue, Val};
use vstd::prelude::*;
use vstd::utf8::encode_utf8;

verus! {

broadcast use crate::wire::group_be;

/// A value that is no collection and that a request can hold.
pub open spec fn is_simple(v: Val) -> bool {
    match v {
        Val::Text(s) => encode_utf8(s).len() <= max_len(),
        Val::Ascii(s) => encode_utf8(s).len() <= max_len(),
        Val::Blob(b) => b.len() <= max_len(),
        Val::TinyInt(_) | Val::SmallInt(_) | Val::Int(_) | Val::BigInt(_) | Val::Boolean(_)
        | Val::Float(_) | Val::Double(_) | Val::Uuid(_) | Val::Timeuuid(_) | Val::Timestamp(_)
        | Val::Date(_) | Val::Time(_) | Val::Inet(_) | Val::Counter(_) | Val::Empty => true,
        _ => false,
    }
}

/// A value that holds others.
pub open spec fn is_compound(v: Val) -> bool {
    v is List || v is SetOf || v is MapOf || v is Tuple || v is Udt || v is Vector
}

/// Of the values that hold no others, those that are not too long are sent,
/// and all but decimals, durations and integers of any size.
pub proof fn law_simple_values_are_sent(v: Val)
    requires
        !is_compound(v),
    ensures
        encoded(v) is Ok <==> is_simple(v),
        plain_bytes(v) is Ok <==> is_simple(v),
        v is Decimal || v is Duration || v is Varint ==> encoded(v) == Coded::Err(
            CodecError::Unsupported,
        ) && plain_bytes(v) == Coded::Err(CodecError::Unsupported),
{
}

/// A value that holds others is not sent plainly.
pub proof fn law_compound_values_are_not_plain(v: Val)
    requires
        is_compound(v),
    ensures
        plain_bytes(v) == Coded::Err(CodecError::Unsupported),
{
}

/// Values are sent one behind the other exactly if each is.
proof fn lemma_tails(s: Seq<Val>)
    ensures
        tails(s) is Ok <==> forall|i: int| 0 <= i < s.len() ==> tail(#[trigger] s[i]) is Ok,
    decreases s.len(),
{
    if s.len() > 0 {
        let more = s.skip(1);
        lemma_tails(more);
        assert(forall|i: int| 0 <= i < more.len() ==> more[i] == s[i + 1]);
        if tails(s) is Ok {
            assert forall|i: int| 0 <= i < s.len() implies tail(#[trigger] s[i]) is Ok by {
                if i > 0 {
                    assert(tail(more[i - 1]) is Ok);
                }
            }
        }
    }
}

/// Values that may be null are sent one behind the other exactly if each that is not is.
proof fn lemma_opt_tails(s: Seq<Option<Val>>)
    ensures
        opt_tails(s) is Ok <==> forall|i: int|
            0 <= i < s.len() ==> (#[trigger] s[i] matches Some(x) ==> tail(x) is Ok),
    decreases s.len(),
{
    if s.len() > 0 {
        let more = s.skip(1);
        lemma_opt_tails(more);
        assert(forall|i: int| 0 <= i < more.len() ==> more[i] == s[i + 1]);
        assert(opt_tail(s[0]) is Ok <==> (s[0] matches Some(x) ==> tail(x) is Ok));
        if opt_tails(s) is Ok {
            assert forall|i: int| 0 <= i < s.len() implies (#[trigger] s[i] matches Some(x)
                ==> tail(x) is Ok) by {
                if i > 0 {
                    assert(more[i - 1] == s[i]);
                }
            }
        } else if s[0] matches Some(x) ==> tail(x) is Ok {
            let i = choose|i: int|
                0 <= i < more.len() && !(#[trigger] more[i] matches Some(x) ==> tail(x) is Ok);
            assert(!(s[i + 1] matches Some(x) ==> tail(x) is Ok));
        }
    }
}

/// Entries are sent one behind the other exactly if each key and each value is.
proof fn lemma_entry_tails(s: Seq<(Val, Val)>)
    ensures
        entry_tails(s) is Ok <==> forall|i: int|
            0 <= i < s.len() ==> tail((#[trigger] s[i]).0) is Ok && tail(s[i].1) is Ok,
    decreases s.len(),
{
    if s.len() > 0 {
        let more = s.skip(1);
        lemma_entry_tails(more);
        assert(forall|i: int| 0 <= i < more.len() ==> more[i] == s[i + 1]);
        if entry_tails(s) is Ok {
            assert forall|i: int| 0 <= i < s.len() implies tail((#[trigger] s[i]).0) is Ok && tail(
                s[i].1,
            ) is Ok by {
                if i > 0 {
                    assert(more[i - 1] == s[i]);
                }
            }
        } else if tail(s[0].0) is Ok && tail(s[0].1) is Ok {
            let i = choose|i: int|
                0 <= i < more.len() && !(tail((#[trigger] more[i]).0) is Ok && tail(
                    more[i].1,
                ) is Ok);
            assert(!(tail(s[i + 1].0) is Ok && tail(s[i + 1].1) is Ok));
        }
    }
}

/// The elements of a list without vectors are sent as those of a set are.
proof fn lemma_list_tails(s: Seq<Val>)
    requires
        forall|i: int| 0 <= i < s.len() ==> !(#[trigger] s[i] is Vector),
    ensures
        list_tails(s) == tails(s),
    decreases s.len(),
{
    if s.len() > 0 {
        let more = s.skip(1);
        assert(forall|i: int| 0 <= i < more.len() ==> more[i] == s[i + 1]);
        assert(!(s[0] is Vector));
        lemma_list_tails(more);
    }
}

/// A collection of values that are sent is sent itself, unless it is too
/// long; one with a value that is not sent is not sent either.
pub proof fn law_collections_of_sent_values_are_sent(s: Seq<Val>)
    requires
        s.len() <= max_len(),
        forall|i: int| 0 <= i < s.len() ==> !(#[trigger] s[i] is Vector),
    ensures
        encoded(Val::SetOf(s)) is Ok <==> (forall|i: int|
            0 <= i < s.len() ==> encoded(#[trigger] s[i]) is Ok) && 6 + tails(s)->Ok_0.len()
            <= max_len(),
        encoded(Val::List(s)) is Ok <==> (forall|i: int|
            0 <= i < s.len() ==> encoded(#[trigger] s[i]) is Ok) && 6 + tails(s)->Ok_0.len()
            <= max_len(),
{
    lemma_tails(s);
    lemma_list_tails(s);
    assert(!is_packed(s)) by {
        if s.len() > 0 {
            assert(!(s[0] is Vector));
        }
    }
    assert(forall|i: int| 0 <= i < s.len() ==> (encoded(#[trigger] s[i]) is Ok <==> tail(s[i]) is Ok));
    if forall|i: int| 0 <= i < s.len() ==> encoded(#[trigger] s[i]) is Ok {
        assert forall|i: int| 0 <= i < s.len() implies tail(#[trigger] s[i]) is Ok by {
            assert(encoded(s[i]) is Ok);
        }
    }
    if tails(s) is Ok {
        assert forall|i: int| 0 <= i < s.len() implies encoded(#[trigger] s[i]) is Ok by {
            assert(tail(s[i]) is Ok);
        }
    }
}

/// A map is sent where its keys and values are, and a tuple where its
/// elements are, unless it is too long.
pub proof fn law_maps_and_tuples_of_sent_values_are_sent(
    s: Seq<(Val, Val)>,
    elements: Seq<Option<Val>>,
)
    ensures
        s.len() <= max_len() && (forall|i: int|
            0 <= i < s.len() ==> tail((#[trigger] s[i]).0) is Ok && tail(s[i].1) is Ok) && 8
            + entry_tails(s)->Ok_0.len() <= max_len() ==> encoded(Val::MapOf(s)) is Ok,
        encoded(Val::MapOf(s)) is Ok ==> forall|i: int|
            0 <= i < s.len() ==> tail((#[trigger] s[i]).0) is Ok && tail(s[i].1) is Ok,
        encoded(Val::Tuple(elements)) is Ok ==> elements.len() <= 0xFFFF && forall|i: int|
            0 <= i < elements.len() ==> (#[trigger] elements[i] matches Some(x) ==> tail(x) is Ok),
{
    lemma_entry_tails(s);
    lemma_opt_tails(elements);
}

/// A text is sent behind its 16-bit length exactly if it is that short.
pub proof fn law_short_texts_are_sent(s: Seq<char>)
    ensures
        short_string(s) is Ok <==> encode_utf8(s).len() <= 0xFFFF,
{
}

/// Texts that are sent behind a 16-bit length.
pub open spec fn both_short(item: (Seq<char>, Seq<char>)) -> bool {
    encode_utf8(item.0).len() <= 0xFFFF && encode_utf8(item.1).len() <= 0xFFFF
}

/// The parameters of a session are sent exactly if they are not too many and
/// each name and each value is short.
pub proof fn law_params_are_sent(items: Seq<(Seq<char>, Seq<char>)>)
    ensures
        string_map_bytes(items) is Ok <==> items.len() <= 0xFFFF && forall|i: int|
            0 <= i < items.len() ==> both_short(#[trigger] items[i]),
{
    lemma_pairs_sent(items);
}

/// Pairs are sent exactly if each name and each value is short.
proof fn lemma_pairs_sent(items: Seq<(Seq<char>, Seq<char>)>)
    ensures
        map_strings(items) is Ok <==> forall|i: int|
            0 <= i < items.len() ==> both_short(#[trigger] items[i]),
    decreases items.len(),
{
    if items.len() > 0 {
        let more = items.skip(1);
        lemma_pairs_sent(more);
        assert(forall|i: int| 0 <= i < more.len() ==> more[i] == items[i + 1]);
        if map_strings(items) is Ok {
            assert forall|i: int| 0 <= i < items.len() implies both_short(#[trigger] items[i]) by {
                if i > 0 {
                    assert(both_short(more[i - 1]));
                }
            }
        } else if both_short(items[0]) {
            let i = choose|i: int| 0 <= i < more.len() && !both_short(#[trigger] more[i]);
            assert(!both_short(items[i + 1]));
        }
    }
}

/// The values of a statement are sent exactly if they are not too many and
/// each is sent.
pub proof fn law_values_are_sent(values: Seq<Val>)
    ensures
        values_bytes(values) is Ok <==> values.len() <= 0xFFFF && forall|i: int|
            0 <= i < values.len() ==> encoded(#[trigger] values[i]) is Ok,
        plain_values(values) is Ok <==> values.len() <= 0xFFFF && forall|i: int|
            0 <= i < values.len() ==> plain_bytes(#[trigger] values[i]) is Ok,
{
    lemma_values_sent(values);
    lemma_plain_sent(values);
}

/// Values are sent exactly if each is.
proof fn lemma_values_sent(values: Seq<Val>)
    ensures
        all_encoded(values) is Ok <==> forall|i: int|
            0 <= i < values.len() ==> encoded(#[trigger] values[i]) is Ok,
    decreases values.len(),
{
    reveal(all_encoded);
    if values.len() > 0 {
        let more = values.skip(1);
        let first = encoded(values[0]);
        lemma_values_sent(more);
        assert(all_encoded(values) is Ok <==> first is Ok && all_encoded(more) is Ok);
        if all_encoded(values) is Ok {
            assert forall|i: int| 0 <= i < values.len() implies encoded(
                #[trigger] values[i],
            ) is Ok by {
                if i > 0 {
                    assert(values[i] == more[i - 1]);
                }
            }
        } else if first is Ok {
            let i = choose|i: int| 0 <= i < more.len() && !(encoded(#[trigger] more[i]) is Ok);
            assert(more[i] == values[i + 1]);
        }
    }
}

/// Values are sent plainly exactly if each is.
proof fn lemma_plain_sent(values: Seq<Val>)
    ensures
        all_plain(values) is Ok <==> forall|i: int|
            0 <= i < values.len() ==> plain_bytes(#[trigger] values[i]) is Ok,
    decreases values.len(),
{
    if values.len() > 0 {
        let more = values.skip(1);
        let first = plain_bytes(values[0]);
        lemma_plain_sent(more);
        assert(all_plain(values) is Ok <==> first is Ok && all_plain(more) is Ok);
        if all_plain(values) is Ok {
            assert forall|i: int| 0 <= i < values.len() implies plain_bytes(
                #[trigger] values[i],
            ) is Ok by {
                if i > 0 {
                    assert(values[i] == more[i - 1]);
                }
            }
        } else if first is Ok {
            let i = choose|i: int| 0 <= i < more.len() && !(plain_bytes(#[trigger] more[i]) is Ok);
            assert(more[i] == values[i + 1]);
        }
    }
}

/// A statement is prepared exactly if its key is short, and executed exactly
/// if its values are sent besides.
pub proof fn law_statements_are_sent(
    session: u64,
    query: Seq<char>,
    key: Seq<char>,
    consistency: Consistency,
    values: Seq<Val>,
)
    ensures
        prepare_body(session, query, key) is Ok <==> encode_utf8(key).len() <= 0xFFFF,
        execute_body(session, key, consistency, values) is Ok <==> encode_utf8(key).len() <= 0xFFFF
            && values.len() <= 0xFFFF && forall|i: int|
            0 <= i < values.len() ==> encoded(#[trigger] values[i]) is Ok,
        plain_execute_body(session, key, consistency, values) is Ok <==> encode_utf8(key).len()
            <= 0xFFFF && values.len() <= 0xFFFF && forall|i: int|
            0 <= i < values.len() ==> plain_bytes(#[trigger] values[i]) is Ok,
{
    law_values_are_sent(values);
}

/// A statement of a batch that is sent.
pub open spec fn is_sent(statement: (&str, &[CqlValue])) -> bool {
    encode_utf8(statement.0@).len() <= 0xFFFF && values_bytes(vals(statement.1@)) is Ok
}

/// A batch is sent exactly if its statements are not too many and each is sent.
pub proof fn law_batches_are_sent(
    session: u64,
    statements: Seq<(&str, &[CqlValue])>,
    consistency: Consistency,
)
    ensures
        batch_body(session, statements, consistency) is Ok <==> statements.len() <= 0xFFFF
            && forall|i: int| 0 <= i < statements.len() ==> is_sent(#[trigger] statements[i]),
{
    lemma_statements_sent(statements);
}

/// Statements are sent exactly if each is.
proof fn lemma_statements_sent(statements: Seq<(&str, &[CqlValue])>)
    ensures
        batch_statements(statements) is Ok <==> forall|i: int|
            0 <= i < statements.len() ==> is_sent(#[trigger] statements[i]),
    decreases statements.len(),
{
    if statements.len() > 0 {
        let more = statements.skip(1);
        lemma_statements_sent(more);
        assert(forall|i: int| 0 <= i < more.len() ==> more[i] == statements[i + 1]);
        if batch_statements(statements) is Ok {
            assert forall|i: int| 0 <= i < statements.len() implies is_sent(
                #[trigger] statements[i],
            ) by {
                if i > 0 {
                    assert(is_sent(more[i - 1]));
                }
            }
        } else if is_sent(statements[0]) {
            let i = choose|i: int| 0 <= i < more.len() && !is_sent(#[trigger] more[i]);
            assert(!is_sent(statements[i + 1]));
        }
    }
}

/// Rows are sent exactly if their columns have types with a code and short
/// names, and each of their cells is sent.
pub proof fn law_rows_are_sent(columns: Seq<ColumnSpec>, rows: Seq<Seq<Option<Val>>>)
    requires
        forall|i: int| 0 <= i < rows.len() ==> (#[trigger] rows[i]).len() == columns.len(),
    ensures
        rows_body(columns, rows) is Ok <==> (forall|i: int|
            0 <= i < columns.len() ==> head_fits(#[trigger] columns[i])) && (forall|i: int|
            0 <= i < rows.len() ==> row_fits(columns, #[trigger] rows[i])),
{
    lemma_heads_sent(columns);
    lemma_rows_sent(columns, rows);
    if forall|i: int| 0 <= i < columns.len() ==> head_fits(#[trigger] columns[i]) {
        assert forall|i: int| 0 <= i < columns.len() implies type_code_of(
            (#[trigger] columns[i]).typ,
        ) is Some by {
            assert(head_fits(columns[i]));
        }
    }
}

/// A column that a result can describe.
pub open spec fn head_fits(column: ColumnSpec) -> bool {
    encode_utf8(column.keyspace@).len() <= 0xFFFF && encode_utf8(column.table@).len() <= 0xFFFF
        && encode_utf8(column.name@).len() <= 0xFFFF && type_code_of(column.typ) is Some
}

/// A row of which every cell is sent.
pub open spec fn row_fits(columns: Seq<ColumnSpec>, row: Seq<Option<Val>>) -> bool {
    forall|i: int| 0 <= i < row.len() ==> cell(columns[i].typ, #[trigger] row[i]) is Ok
}

/// Columns are described exactly if each is.
proof fn lemma_heads_sent(columns: Seq<ColumnSpec>)
    ensures
        column_heads(columns) is Ok <==> forall|i: int|
            0 <= i < columns.len() ==> head_fits(#[trigger] columns[i]),
    decreases columns.len(),
{
    if columns.len() > 0 {
        let more = columns.skip(1);
        lemma_heads_sent(more);
        assert(column_head(columns[0]) is Ok <==> head_fits(columns[0]));
        if column_heads(columns) is Ok {
            assert forall|i: int| 0 <= i < columns.len() implies head_fits(
                #[trigger] columns[i],
            ) by {
                if i > 0 {
                    assert(columns[i] == more[i - 1]);
                }
            }
        } else if head_fits(columns[0]) {
            let i = choose|i: int| 0 <= i < more.len() && !head_fits(#[trigger] more[i]);
            assert(more[i] == columns[i + 1]);
        }
    }
}

/// The cells of a row from one on are sent exactly if each is.
proof fn lemma_row_sent(columns: Seq<ColumnSpec>, row: Seq<Option<Val>>, k: nat)
    requires
        row.len() == columns.len(),
        k <= row.len(),
    ensures
        row_bytes(columns, row, k) is Ok <==> forall|i: int|
            k <= i < row.len() ==> cell(columns[i].typ, #[trigger] row[i]) is Ok,
    decreases row.len() - k,
{
    if k < row.len() {
        lemma_row_sent(columns, row, k + 1);
        let first = cell(columns[k as int].typ, row[k as int]);
        assert(row_bytes(columns, row, k) is Ok <==> first is Ok && row_bytes(
            columns,
            row,
            k + 1,
        ) is Ok);
    }
}

/// Rows are sent exactly if each is.
proof fn lemma_rows_sent(columns: Seq<ColumnSpec>, rows: Seq<Seq<Option<Val>>>)
    requires
        forall|i: int| 0 <= i < rows.len() ==> (#[trigger] rows[i]).len() == columns.len(),
    ensures
        all_row_bytes(columns, rows) is Ok <==> forall|i: int|
            0 <= i < rows.len() ==> row_fits(columns, #[trigger] rows[i]),
    decreases rows.len(),
{
    if rows.len() > 0 {
        let more = rows.skip(1);
        assert(forall|i: int| 0 <= i < more.len() ==> more[i] == rows[i + 1]);
        lemma_rows_sent(columns, more);
        lemma_row_sent(columns, rows[0], 0);
        assert(row_bytes(columns, rows[0], 0) is Ok <==> row_fits(columns, rows[0]));
        if all_row_bytes(columns, rows) is Ok {
            assert forall|i: int| 0 <= i < rows.len() implies row_fits(
                columns,
                #[trigger] rows[i],
            ) by {
                if i > 0 {
                    assert(rows[i] == more[i - 1]);
                }
            }
        } else if row_fits(columns, rows[0]) {
            let i = choose|i: int| 0 <= i < more.len() && !row_fits(columns, #[trigger] more[i]);
            assert(more[i] == rows[i + 1]);
        }
    }
}

} // verus!
