//! The RESULT frames that the adapter answers with.

use super::encode::{column_bytes, encode_value, type_code, type_code_of};
use super::protocol::{is_response, response_frame, Frame, Opcode};
use crate::error::{after, lemma_after, wrote, Coded, CodecError};
use crate::ipc::client::{short_string, write_string};
use crate::ipc::types::rows_of;
use crate::value::{opt_val, opt_vals, ColumnType, CqlValue, Val};
use crate::wire::{
    be2, be4, low_u16, low_u32, mut_contents, new_buffer, put_i32, put_slice, put_u16, put_u32,
};
use bytes::BytesMut;
use vstd::prelude::*;
use vstd::string::*;

verus! {

broadcast use crate::wire::group_be;

/// A RESULT frame without rows.
pub fn void_frame(stream: i16) -> (frame: Frame)
    ensures
        is_response(frame, stream, Opcode::Result, be4(1)),
{
    let mut body: BytesMut = new_buffer();
    put_i32(&mut body, 0x0001);
    assert(mut_contents(body) =~= be4(1));
    response_frame(stream, Opcode::Result, body)
}

/// The body of a PREPARED result: the key, the key again as the id, and empty
/// metadata of the bind variables and of the result.
pub open spec fn prepared_body(key: Seq<char>) -> Coded {
    match short_string(key) {
        Err(e) => Err(e),
        Ok(name) => Ok(be4(4) + name + name + be4(0) + be4(0) + be4(0) + be4(0)),
    }
}

/// A response was built as `coded` says.
pub open spec fn responded(
    coded: Coded,
    r: Result<Frame, CodecError>,
    stream: i16,
    opcode: Opcode,
) -> bool {
    match coded {
        Ok(body) => r is Ok && is_response(r->Ok_0, stream, opcode, body),
        Err(e) => r matches Err(e2) && e2 == e,
    }
}

/// A RESULT frame for a prepared statement.
pub fn build_prepared_frame(stream: i16, statement_key: &str) -> (r: Result<Frame, CodecError>)
    ensures
        responded(prepared_body(statement_key@), r, stream, Opcode::Result),
{
    let mut body: BytesMut = new_buffer();
    put_i32(&mut body, 0x0004);
    if let Err(e) = write_string(statement_key, &mut body) {
        return Err(e);
    }
    let id: &[u8] = statement_key.as_bytes();
    put_u16(&mut body, low_u16(id.len()));
    put_slice(&mut body, id);
    put_i32(&mut body, 0);
    put_i32(&mut body, 0);
    put_i32(&mut body, 0);
    put_i32(&mut body, 0);
    assert(mut_contents(body) =~= prepared_body(statement_key@)->Ok_0);
    Ok(response_frame(stream, Opcode::Result, body))
}

/// A column of a result.
#[derive(Debug)]
pub struct ColumnSpec {
    pub keyspace: String,
    pub table: String,
    pub name: String,
    pub typ: ColumnType,
}

/// The names and the type code of a column.
pub open spec fn column_head(column: ColumnSpec) -> Coded {
    match short_string(column.keyspace@) {
        Err(e) => Err(e),
        Ok(keyspace) => match short_string(column.table@) {
            Err(e) => Err(e),
            Ok(table) => match short_string(column.name@) {
                Err(e) => Err(e),
                Ok(name) => match type_code_of(column.typ) {
                    None => Err(CodecError::UnsupportedColumnType),
                    Some(code) => Ok(keyspace + table + name + be2(code as int)),
                },
            },
        },
    }
}

/// The names and the type codes of all columns.
pub open spec fn column_heads(columns: Seq<ColumnSpec>) -> Coded
    decreases columns.len(),
{
    if columns.len() == 0 {
        Ok(Seq::empty())
    } else {
        match column_head(columns[0]) {
            Err(e) => Err(e),
            Ok(bytes) => after(bytes, column_heads(columns.skip(1))),
        }
    }
}

/// A value of a column; a null is a length of -1.
pub open spec fn cell(t: ColumnType, v: Option<Val>) -> Coded {
    match v {
        Some(v) => column_bytes(t, v),
        None => Ok(be4(-1)),
    }
}

/// The values of a row from the `k`-th on; values without a column are left out.
pub open spec fn row_bytes(columns: Seq<ColumnSpec>, row: Seq<Option<Val>>, k: nat) -> Coded
    decreases columns.len() - k,
{
    if k >= columns.len() || k >= row.len() {
        Ok(Seq::empty())
    } else {
        match cell(columns[k as int].typ, row[k as int]) {
            Err(e) => Err(e),
            Ok(bytes) => after(bytes, row_bytes(columns, row, k + 1)),
        }
    }
}

/// The values of all rows.
pub open spec fn all_row_bytes(columns: Seq<ColumnSpec>, rows: Seq<Seq<Option<Val>>>) -> Coded
    decreases rows.len(),
{
    if rows.len() == 0 {
        Ok(Seq::empty())
    } else {
        match row_bytes(columns, rows[0], 0) {
            Err(e) => Err(e),
            Ok(bytes) => after(bytes, all_row_bytes(columns, rows.skip(1))),
        }
    }
}

/// Every column has a type code.
pub open spec fn all_supported(columns: Seq<ColumnSpec>) -> bool {
    forall|i: int| 0 <= i < columns.len() ==> type_code_of((#[trigger] columns[i]).typ) is Some
}

/// The body of a result with rows: no flags, the columns, and the rows.
pub open spec fn rows_body(columns: Seq<ColumnSpec>, rows: Seq<Seq<Option<Val>>>) -> Coded {
    if !all_supported(columns) {
        Err(CodecError::UnsupportedColumnType)
    } else {
        match column_heads(columns) {
            Err(e) => Err(e),
            Ok(heads) => match all_row_bytes(columns, rows) {
                Err(e) => Err(e),
                Ok(cells) => Ok(
                    be4(2) + be4(0) + be4(columns.len() as int) + heads + be4(rows.len() as int)
                        + cells,
                ),
            },
        }
    }
}

/// Appends the names and the type codes of the columns.
fn put_column_heads(columns: &Vec<ColumnSpec>, body: &mut BytesMut) -> (r: Result<(), CodecError>)
    ensures
        wrote(column_heads(columns@), r, mut_contents(*old(body)), mut_contents(*final(body))),
{
    let ghost s = columns@;
    let ghost start = mut_contents(*body);
    let ghost mut done = Seq::<u8>::empty();
    let mut i: usize = 0;
    assert(s.skip(0) =~= s);
    proof {
        lemma_after(done, Seq::empty(), column_heads(s));
    }
    while i < columns.len()
        invariant
            i <= columns@.len(),
            s == columns@,
            start == mut_contents(*old(body)),
            mut_contents(*body) =~= start + done,
            column_heads(s) == after(done, column_heads(s.skip(i as int))),
        decreases columns@.len() - i,
    {
        let ghost rest = s.skip(i as int);
        assert(rest[0] == columns@[i as int]);
        assert(rest.skip(1) =~= s.skip(i + 1));
        let column: &ColumnSpec = &columns[i];
        if let Err(e) = write_string(column.keyspace.as_str(), body) {
            return Err(e);
        }
        if let Err(e) = write_string(column.table.as_str(), body) {
            return Err(e);
        }
        if let Err(e) = write_string(column.name.as_str(), body) {
            return Err(e);
        }
        match type_code(&column.typ) {
            None => {
                return Err(CodecError::UnsupportedColumnType);
            },
            Some(code) => {
                put_u16(body, code);
            },
        }
        proof {
            let more = column_head(rest[0])->Ok_0;
            lemma_after(done, more, column_heads(s.skip(i + 1)));
            done = done + more;
        }
        i = i + 1;
    }
    assert(s.skip(i as int) =~= Seq::empty());
    proof {
        lemma_after(done, Seq::empty(), column_heads(s));
    }
    Ok(())
}

/// Appends the values of a row.
fn put_row(columns: &Vec<ColumnSpec>, row: &Vec<Option<CqlValue>>, body: &mut BytesMut) -> (r:
    Result<(), CodecError>)
    ensures
        wrote(
            row_bytes(columns@, opt_vals(row@), 0),
            r,
            mut_contents(*old(body)),
            mut_contents(*final(body)),
        ),
{
    let ghost s = opt_vals(row@);
    let ghost start = mut_contents(*body);
    let ghost mut done = Seq::<u8>::empty();
    let mut k: usize = 0;
    proof {
        lemma_after(done, Seq::empty(), row_bytes(columns@, s, 0));
    }
    while k < columns.len() && k < row.len()
        invariant
            k <= columns@.len(),
            k <= row@.len(),
            s == opt_vals(row@),
            start == mut_contents(*old(body)),
            mut_contents(*body) =~= start + done,
            row_bytes(columns@, s, 0) == after(done, row_bytes(columns@, s, k as nat)),
        decreases columns@.len() - k,
    {
        assert(s[k as int] == opt_val(row@[k as int]));
        match &row[k] {
            Some(v) => {
                if let Err(e) = encode_value(&columns[k].typ, v, body) {
                    return Err(e);
                }
            },
            None => {
                put_i32(body, -1);
            },
        }
        proof {
            let more = cell(columns@[k as int].typ, s[k as int])->Ok_0;
            lemma_after(done, more, row_bytes(columns@, s, (k + 1) as nat));
            done = done + more;
        }
        k = k + 1;
    }
    proof {
        lemma_after(done, Seq::empty(), row_bytes(columns@, s, 0));
    }
    Ok(())
}

/// Appends the values of all rows.
fn put_rows(columns: &Vec<ColumnSpec>, rows: &Vec<Vec<Option<CqlValue>>>, body: &mut BytesMut) -> (r:
    Result<(), CodecError>)
    ensures
        wrote(
            all_row_bytes(columns@, rows_of(rows@)),
            r,
            mut_contents(*old(body)),
            mut_contents(*final(body)),
        ),
{
    let ghost s = rows_of(rows@);
    let ghost start = mut_contents(*body);
    let ghost mut done = Seq::<u8>::empty();
    let mut i: usize = 0;
    assert(s.skip(0) =~= s);
    proof {
        lemma_after(done, Seq::empty(), all_row_bytes(columns@, s));
    }
    while i < rows.len()
        invariant
            i <= rows@.len(),
            s == rows_of(rows@),
            start == mut_contents(*old(body)),
            mut_contents(*body) =~= start + done,
            all_row_bytes(columns@, s) == after(done, all_row_bytes(columns@, s.skip(i as int))),
        decreases rows@.len() - i,
    {
        let ghost rest = s.skip(i as int);
        assert(rest[0] == opt_vals(rows@[i as int]@));
        assert(rest.skip(1) =~= s.skip(i + 1));
        if let Err(e) = put_row(columns, &rows[i], body) {
            return Err(e);
        }
        proof {
            let more = row_bytes(columns@, rest[0], 0)->Ok_0;
            lemma_after(done, more, all_row_bytes(columns@, s.skip(i + 1)));
            done = done + more;
        }
        i = i + 1;
    }
    assert(s.skip(i as int) =~= Seq::empty());
    proof {
        lemma_after(done, Seq::empty(), all_row_bytes(columns@, s));
    }
    Ok(())
}

/// A RESULT frame with rows.
pub fn build_rows_frame(
    stream: i16,
    columns: &Vec<ColumnSpec>,
    rows: &Vec<Vec<Option<CqlValue>>>,
) -> (r: Result<Frame, CodecError>)
    ensures
        responded(rows_body(columns@, rows_of(rows@)), r, stream, Opcode::Result),
{
    let mut i: usize = 0;
    while i < columns.len()
        invariant
            i <= columns@.len(),
            forall|j: int| 0 <= j < i ==> type_code_of((#[trigger] columns@[j]).typ) is Some,
        decreases columns@.len() - i,
    {
        if type_code(&columns[i].typ).is_none() {
            return Err(CodecError::UnsupportedColumnType);
        }
        i = i + 1;
    }
    let mut body: BytesMut = new_buffer();
    put_i32(&mut body, 0x0002);
    put_i32(&mut body, 0);
    put_u32(&mut body, low_u32(columns.len()));
    if let Err(e) = put_column_heads(columns, &mut body) {
        return Err(e);
    }
    put_u32(&mut body, low_u32(rows.len()));
    if let Err(e) = put_rows(columns, rows, &mut body) {
        return Err(e);
    }
    assert(mut_contents(body) =~= rows_body(columns@, rows_of(rows@))->Ok_0);
    Ok(response_frame(stream, Opcode::Result, body))
}

} // verus!
