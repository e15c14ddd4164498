//! What the adapter answers is what the client reads.

use super::encode::{column_bytes, float_bytes, type_code_of};
use super::frames::{
    all_row_bytes, cell, column_head, column_heads, prepared_body, row_bytes, rows_body,
    ColumnSpec,
};
use super::laws::{all_floats, lemma_count, lemma_floats, lemma_null, lemma_nullable};
use super::request_laws::lemma_short_string;
use crate::error::{CodecError, Part};
use crate::ipc::client::{result_of, short_string};
use crate::ipc::decode::{
    column_at, column_data, column_value_at, columns_at, duration_of, low_i32, row_at, rows_at,
    rows_result_at, Decoded,
};
use crate::ipc::encode::{floats, max_len, sized};
use crate::ipc::types::{Column, Outcome};
use crate::reader::{int_at, short_at, At};
use crate::text::lemma_utf8_round_trip;
use crate::value::{ColumnType, CqlDuration, NativeType, Val};
use crate::vint::{group_bytes, law_vint_round_trip, mirrored, zigzag};
use crate::wire::{be2, be4, be8, lemma_be2, lemma_be4, lemma_be8};
use vstd::prelude::*;
use vstd::string::*;
use vstd::utf8::encode_utf8;

verus! {

broadcast use crate::wire::group_be;

/// A column as the client sees it.
pub open spec fn shown(column: ColumnSpec) -> Column {
    Column {
        keyspace: column.keyspace@,
        table: column.table@,
        name: column.name@,
        type_code: type_code_of(column.typ)->0,
    }
}

/// Columns as the client sees them.
pub open spec fn all_shown(columns: Seq<ColumnSpec>) -> Seq<Column> {
    columns.map_values(|c: ColumnSpec| shown(c))
}

/// A duration whose three numbers are read back.
pub open spec fn mirrored_duration(d: CqlDuration) -> bool {
    mirrored(zigzag(d.months as i64)) && mirrored(zigzag(d.days as i64)) && mirrored(
        zigzag(d.nanoseconds),
    )
}

/// The client reads such a value of a column back as it was. Not so the
/// elements of a collection, whose type is not sent, nor a tuple or a
/// user-defined type, which is read as bytes, nor a duration with a number
/// that is not the same from both ends.
pub open spec fn reads_back(t: ColumnType, v: Val) -> bool {
    match t {
        ColumnType::Native(NativeType::Uuid) => v matches Val::Uuid(b) && b.len() == 16,
        ColumnType::Native(NativeType::Timeuuid) => v matches Val::Timeuuid(b) && b.len() == 16,
        ColumnType::Native(NativeType::Inet) => v matches Val::Inet(b) && (b.len() == 4 || b.len()
            == 16),
        ColumnType::Native(NativeType::Duration) => v matches Val::Duration(d)
            && mirrored_duration(d),
        ColumnType::Native(_) => true,
        ColumnType::Vector { .. } => true,
        ColumnType::List(_) => v matches Val::List(s) && s.len() == 0,
        ColumnType::SetOf(_) => v matches Val::SetOf(s) && s.len() == 0,
        ColumnType::MapOf(_, _) => v matches Val::MapOf(s) && s.len() == 0,
        _ => false,
    }
}

/// The floats of a vector are only floats.
proof fn lemma_only_floats(s: Seq<Val>)
    requires
        float_bytes(s) is Ok,
    ensures
        all_floats(s),
        floats(s) == float_bytes(s),
    decreases s.len(),
{
    if s.len() > 0 {
        lemma_only_floats(s.skip(1));
        assert forall|i: int| 0 <= i < s.len() implies (#[trigger] s[i]) is Float by {
            if i > 0 {
                assert(s.skip(1)[i - 1] == s[i]);
            }
        }
    }
}

/// The numbers of a duration are read back.
proof fn lemma_duration(d: CqlDuration)
    requires
        mirrored_duration(d),
    ensures
        duration_of(super::encode::duration_bytes(d)) == Decoded::Ok(Val::Duration(d)),
{
    let none = Seq::<u8>::empty();
    let a = group_bytes(zigzag(d.months as i64));
    let b = group_bytes(zigzag(d.days as i64));
    let c = group_bytes(zigzag(d.nanoseconds));
    assert(a + b + c =~= a + (b + c));
    law_vint_round_trip(d.months as i64, b + c);
    law_vint_round_trip(d.days as i64, c);
    law_vint_round_trip(d.nanoseconds, none);
    assert(c + none =~= c);
    assert(low_i32(d.months as i64) == d.months);
    assert(low_i32(d.days as i64) == d.days);
}

/// The data of a value decode to the value.
#[verifier::spinoff_prover]
#[verifier::rlimit(80)]
pub(crate) proof fn lemma_data(t: ColumnType, v: Val) -> (data: Seq<u8>)
    requires
        reads_back(t, v),
        column_bytes(t, v) is Ok,
    ensures
        data.len() <= max_len(),
        column_bytes(t, v)->Ok_0 == sized(data),
        column_data(data, type_code_of(t)->0) == Decoded::Ok(v),
{
    reveal(column_data);
    let none = Seq::<u8>::empty();
    match v {
        Val::Int(n) => {
            lemma_be4(n as int, none);
            assert(be4(n as int) + none =~= be4(n as int));
            be4(n as int)
        },
        Val::Text(s) => {
            lemma_utf8_round_trip(s);
            encode_utf8(s)
        },
        Val::Ascii(s) => {
            lemma_utf8_round_trip(s);
            encode_utf8(s)
        },
        Val::BigInt(n) => {
            lemma_be8(n as int, none);
            assert(be8(n as int) + none =~= be8(n as int));
            be8(n as int)
        },
        Val::Time(n) => {
            lemma_be8(n as int, none);
            assert(be8(n as int) + none =~= be8(n as int));
            be8(n as int)
        },
        Val::Timestamp(n) => {
            lemma_be8(n as int, none);
            assert(be8(n as int) + none =~= be8(n as int));
            be8(n as int)
        },
        Val::Counter(n) => {
            lemma_be8(n as int, none);
            assert(be8(n as int) + none =~= be8(n as int));
            be8(n as int)
        },
        Val::Boolean(b) => seq![if b { 1u8 } else { 0u8 }],
        Val::Float(bits) => {
            lemma_be4(bits as int, none);
            assert(be4(bits as int) + none =~= be4(bits as int));
            be4(bits as int)
        },
        Val::Date(n) => {
            lemma_be4(n as int, none);
            assert(be4(n as int) + none =~= be4(n as int));
            be4(n as int)
        },
        Val::Double(bits) => {
            lemma_be8(bits as int, none);
            assert(be8(bits as int) + none =~= be8(bits as int));
            be8(bits as int)
        },
        Val::Uuid(b) => b,
        Val::Timeuuid(b) => b,
        Val::Inet(b) => b,
        Val::Blob(b) => b,
        Val::Varint(b) => b,
        Val::TinyInt(n) => seq![(n as int % 0x100) as u8],
        Val::SmallInt(n) => {
            lemma_be2(n as int, none);
            assert(be2(n as int) + none =~= be2(n as int));
            be2(n as int)
        },
        Val::Decimal(b, scale) => {
            lemma_be4(scale as int, b);
            assert((be4(scale as int) + b).skip(4) =~= b);
            be4(scale as int) + b
        },
        Val::Duration(d) => {
            lemma_duration(d);
            super::encode::duration_bytes(d)
        },
        Val::Vector(s) => {
            lemma_only_floats(s);
            lemma_floats(s, none);
            let data = floats(s)->Ok_0;
            assert(data + none =~= data);
            data
        },
        Val::List(s) => {
            lemma_be4(0, none);
            assert(be4(0) + none =~= be4(0));
            assert(s =~= Seq::empty());
            be4(0)
        },
        Val::SetOf(s) => {
            lemma_be4(0, none);
            assert(be4(0) + none =~= be4(0));
            assert(s =~= Seq::empty());
            be4(0)
        },
        Val::MapOf(s) => {
            lemma_be4(0, none);
            assert(be4(0) + none =~= be4(0));
            assert(s =~= Seq::empty());
            be4(0)
        },
        _ => none,
    }
}

/// The client reads a value of a column back.
pub proof fn law_column_value_round_trip(t: ColumnType, v: Option<Val>, rest: Seq<u8>)
    requires
        cell(t, v) is Ok,
        v matches Some(x) ==> reads_back(t, x),
    ensures
        column_value_at(cell(t, v)->Ok_0 + rest, type_code_of(t)->0) == At::Ok((v, rest)),
{
    match v {
        None => {
            lemma_null(rest, Part::ColumnValue);
        },
        Some(x) => {
            let data = lemma_data(t, x);
            lemma_nullable(data, rest, Part::ColumnValue);
        },
    }
}

/// The client reads a column back.
#[verifier::spinoff_prover]
#[verifier::rlimit(60)]
proof fn lemma_column(column: ColumnSpec, rest: Seq<u8>)
    requires
        column_head(column) is Ok,
    ensures
        column_at(column_head(column)->Ok_0 + rest) == At::Ok((shown(column), rest)),
{
    let a = short_string(column.keyspace@)->Ok_0;
    let b = short_string(column.table@)->Ok_0;
    let c = short_string(column.name@)->Ok_0;
    let code = type_code_of(column.typ)->0;
    let d = be2(code as int);
    let s3 = d + rest;
    let s2 = c + s3;
    let s1 = b + s2;
    assert(column_head(column)->Ok_0 + rest =~= a + s1);
    lemma_short_string(column.keyspace@, s1);
    lemma_short_string(column.table@, s2);
    lemma_short_string(column.name@, s3);
    lemma_be2(code as int, rest);
    assert(short_at(s3) == At::Ok((code, rest)));
}

/// The client reads columns back.
#[verifier::spinoff_prover]
proof fn lemma_columns(columns: Seq<ColumnSpec>, rest: Seq<u8>)
    requires
        column_heads(columns) is Ok,
    ensures
        columns_at(column_heads(columns)->Ok_0 + rest, columns.len()) == At::Ok(
            (all_shown(columns), rest),
        ),
    decreases columns.len(),
{
    if columns.len() == 0 {
        assert(column_heads(columns)->Ok_0 + rest =~= rest);
        assert(all_shown(columns) =~= Seq::empty());
    } else {
        let more = columns.skip(1);
        let first = column_head(columns[0])->Ok_0;
        let b = column_heads(more)->Ok_0;
        lemma_columns(more, rest);
        assert(column_heads(columns)->Ok_0 + rest =~= first + (b + rest));
        lemma_column(columns[0], b + rest);
        assert(all_shown(columns) =~= seq![shown(columns[0])] + all_shown(more));
    }
}

/// All values of a row come back.
pub open spec fn row_reads_back(columns: Seq<ColumnSpec>, row: Seq<Option<Val>>) -> bool {
    row.len() == columns.len() && forall|k: int|
        0 <= k < row.len() ==> match #[trigger] row[k] {
            Some(v) => reads_back(columns[k].typ, v),
            None => true,
        }
}

/// The client reads the rest of a row back.
#[verifier::spinoff_prover]
proof fn lemma_row(columns: Seq<ColumnSpec>, row: Seq<Option<Val>>, k: nat, rest: Seq<u8>)
    requires
        k <= columns.len(),
        row_reads_back(columns, row),
        row_bytes(columns, row, k) is Ok,
    ensures
        row_at(row_bytes(columns, row, k)->Ok_0 + rest, all_shown(columns), k) == At::Ok(
            (row.skip(k as int), rest),
        ),
    decreases columns.len() - k,
{
    if k == columns.len() {
        assert(row_bytes(columns, row, k)->Ok_0 + rest =~= rest);
        assert(row.skip(k as int) =~= Seq::empty());
    } else {
        let first = cell(columns[k as int].typ, row[k as int])->Ok_0;
        let b = row_bytes(columns, row, k + 1)->Ok_0;
        lemma_row(columns, row, k + 1, rest);
        assert(row_bytes(columns, row, k)->Ok_0 + rest =~= first + (b + rest));
        law_column_value_round_trip(columns[k as int].typ, row[k as int], b + rest);
        assert(all_shown(columns)[k as int] == shown(columns[k as int]));
        assert(row.skip(k as int) =~= seq![row[k as int]] + row.skip(k as int + 1));
    }
}

/// The client reads rows back.
#[verifier::spinoff_prover]
proof fn lemma_rows(columns: Seq<ColumnSpec>, rows: Seq<Seq<Option<Val>>>, rest: Seq<u8>)
    requires
        forall|i: int| 0 <= i < rows.len() ==> row_reads_back(columns, #[trigger] rows[i]),
        all_row_bytes(columns, rows) is Ok,
    ensures
        rows_at(all_row_bytes(columns, rows)->Ok_0 + rest, all_shown(columns), rows.len())
            == At::Ok((rows, rest)),
    decreases rows.len(),
{
    if rows.len() == 0 {
        assert(all_row_bytes(columns, rows)->Ok_0 + rest =~= rest);
        assert(rows =~= Seq::empty());
    } else {
        let more = rows.skip(1);
        assert forall|i: int| 0 <= i < more.len() implies row_reads_back(
            columns,
            #[trigger] more[i],
        ) by {
            assert(more[i] == rows[i + 1]);
        }
        let first = row_bytes(columns, rows[0], 0)->Ok_0;
        let b = all_row_bytes(columns, more)->Ok_0;
        lemma_rows(columns, more, rest);
        assert(all_row_bytes(columns, rows)->Ok_0 + rest =~= first + (b + rest));
        assert(row_reads_back(columns, rows[0]));
        lemma_row(columns, rows[0], 0, b + rest);
        assert(rows[0].skip(0) =~= rows[0]);
        assert(seq![rows[0]] + more =~= rows);
    }
}

/// A result is read from what its columns and its rows are read from.
#[verifier::spinoff_prover]
#[verifier::rlimit(80)]
proof fn lemma_result(
    shown_columns: Seq<Column>,
    rows: Seq<Seq<Option<Val>>>,
    heads: Seq<u8>,
    cells: Seq<u8>,
)
    requires
        shown_columns.len() <= max_len(),
        rows.len() <= max_len(),
        columns_at(heads + (be4(rows.len() as int) + cells), shown_columns.len()) == At::Ok(
            (shown_columns, be4(rows.len() as int) + cells),
        ),
        rows_at(cells, shown_columns, rows.len()) == At::Ok((rows, Seq::empty())),
    ensures
        result_of(
            be4(2) + be4(0) + be4(shown_columns.len() as int) + heads + be4(rows.len() as int)
                + cells,
        ) == Ok::<Outcome, CodecError>(Outcome::Rows(shown_columns, rows)),
{
    let s4 = be4(rows.len() as int) + cells;
    let s3 = heads + s4;
    let s2 = be4(shown_columns.len() as int) + s3;
    let s1 = be4(0) + s2;
    assert(be4(2) + be4(0) + be4(shown_columns.len() as int) + heads + be4(rows.len() as int)
        + cells =~= be4(2) + s1);
    lemma_be4(2, s1);
    assert(int_at(be4(2) + s1) == At::Ok((2i32, s1)));
    lemma_be4(0, s2);
    assert(int_at(s1) == At::Ok((0i32, s2)));
    lemma_count(shown_columns.len() as int, s3);
    lemma_count(rows.len() as int, cells);
    assert(rows_result_at(s1) == At::Ok((Outcome::Rows(shown_columns, rows), Seq::empty())));
}

/// The client reads the rows of a result back, with their columns.
pub proof fn law_rows_round_trip(columns: Seq<ColumnSpec>, rows: Seq<Seq<Option<Val>>>)
    requires
        columns.len() <= max_len(),
        rows.len() <= max_len(),
        forall|i: int| 0 <= i < rows.len() ==> row_reads_back(columns, #[trigger] rows[i]),
        rows_body(columns, rows) is Ok,
    ensures
        result_of(rows_body(columns, rows)->Ok_0) == Ok::<Outcome, CodecError>(
            Outcome::Rows(all_shown(columns), rows),
        ),
{
    let none = Seq::<u8>::empty();
    let heads = column_heads(columns)->Ok_0;
    let cells = all_row_bytes(columns, rows)->Ok_0;
    lemma_columns(columns, be4(rows.len() as int) + cells);
    lemma_rows(columns, rows, none);
    assert(cells + none =~= cells);
    lemma_result(all_shown(columns), rows, heads, cells);
}

/// The client reads a result without rows, and that of a prepared statement, as nothing.
pub proof fn law_void_round_trip(key: Seq<char>)
    requires
        prepared_body(key) is Ok,
    ensures
        result_of(be4(1)) == Ok::<Outcome, CodecError>(Outcome::Void),
        result_of(prepared_body(key)->Ok_0) == Ok::<Outcome, CodecError>(Outcome::Void),
{
    let none = Seq::<u8>::empty();
    lemma_be4(1, none);
    assert(be4(1) + none =~= be4(1));
    let name = short_string(key)->Ok_0;
    let rest = name + name + be4(0) + be4(0) + be4(0) + be4(0);
    assert(prepared_body(key)->Ok_0 =~= be4(4) + rest);
    lemma_be4(4, rest);
}

} // verus!
