//! Decoding of the rows that a driver adapter returns.

use super::types::{columns_of, rows_of, Column, ColumnInfo, Outcome, QueryResult};
use crate::error::{after, lemma_after, CodecError, Part};
use crate::reader::{
    int_at, lossy_string_at, nullable_at, nullable_left, read_int, read_lossy_string,
    read_nullable, read_short, short_at, string_left, At,
};
use crate::text::{from_utf8_lossy, utf8_lossy};
use crate::value::{
    entry_vals, lemma_entry_vals_push, lemma_opt_vals_push, lemma_vals_push, opt_val, opt_vals,
    vals, CqlDuration, CqlValue, IpAddr, Val,
};
use crate::vint::{decode_vint, vint_at};
use crate::wire::{
    read_be2, read_be4, read_be8, signed1, signed2, signed4, signed8, to_i16, to_i32, to_i64,
    to_i8, un2, un4, un8,
};
use vstd::prelude::*;

verus! {

/// What decoding gives: a value, or why there is none.
pub type Decoded = Result<Val, CodecError>;

/// A decoder that met `result` decoded what `spec` says.
pub open spec fn did_decode(spec: Decoded, result: Result<CqlValue, CodecError>) -> bool {
    match spec {
        Ok(v) => result is Ok && result->Ok_0@ == v,
        Err(e) => result == Err::<CqlValue, CodecError>(e),
    }
}

/// The first `n` groups of four bytes, each a single-precision float.
pub open spec fn float_vals(data: Seq<u8>, n: nat) -> Seq<Val> {
    Seq::new(n, |i: int| Val::Float(un4(data.skip(4 * i)) as u32))
}

/// The lower 32 bits of a number, read as a signed one.
pub open spec fn low_i32(n: i64) -> i32 {
    signed4(n as int % 0x1_0000_0000) as i32
}

/// The duration in three variable-length integers: months, days, nanoseconds.
pub open spec fn duration_of(data: Seq<u8>) -> Decoded {
    match vint_at(data) {
        Err(e) => Err(e),
        Ok((months, rest)) => match vint_at(rest) {
            Err(e) => Err(e),
            Ok((days, rest)) => match vint_at(rest) {
                Err(e) => Err(e),
                Ok((nanoseconds, _)) => Ok(
                    Val::Duration(
                        CqlDuration { months: low_i32(months), days: low_i32(days), nanoseconds },
                    ),
                ),
            },
        },
    }
}

/// The next `n` length-prefixed items as blobs, without the nulls.
pub open spec fn blobs_of(s: Seq<u8>, n: nat, part: Part) -> Result<Seq<Val>, CodecError>
    decreases n,
{
    if n == 0 {
        Ok(Seq::empty())
    } else {
        match nullable_at(s, part) {
            Err(e) => Err(e),
            Ok((None, rest)) => blobs_of(rest, (n - 1) as nat, part),
            Ok((Some(data), rest)) => after(
                seq![Val::Blob(data)],
                blobs_of(rest, (n - 1) as nat, part),
            ),
        }
    }
}

/// The next `n` entries of a map as blobs, without those that have a null key.
/// An entry with a null value is kept, with an empty value.
pub open spec fn blob_entries_of(s: Seq<u8>, n: nat) -> Result<Seq<(Val, Val)>, CodecError>
    decreases n,
{
    if n == 0 {
        Ok(Seq::empty())
    } else {
        match nullable_at(s, Part::MapKey) {
            Err(e) => Err(e),
            Ok((None, rest)) => match nullable_at(rest, Part::MapValue) {
                Err(e) => Err(e),
                Ok((_, rest)) => blob_entries_of(rest, (n - 1) as nat),
            },
            Ok((Some(key), rest)) => match nullable_at(rest, Part::MapValue) {
                Err(e) => Err(e),
                Ok((None, rest)) => after(
                    seq![(Val::Blob(key), Val::Empty)],
                    blob_entries_of(rest, (n - 1) as nat),
                ),
                Ok((Some(value), rest)) => after(
                    seq![(Val::Blob(key), Val::Blob(value))],
                    blob_entries_of(rest, (n - 1) as nat),
                ),
            },
        }
    }
}

/// The number of items that a collection announces.
pub open spec fn count_at(s: Seq<u8>) -> At<nat> {
    match int_at(s) {
        Err(e) => Err(e),
        Ok((n, rest)) => if n < 0 {
            Err(CodecError::NegativeCount(n))
        } else {
            Ok((n as nat, rest))
        },
    }
}

/// The elements of a list or set, as blobs.
pub open spec fn collection_of(data: Seq<u8>, part: Part) -> Result<Seq<Val>, CodecError> {
    match count_at(data) {
        Err(e) => Err(e),
        Ok((n, rest)) => blobs_of(rest, n, part),
    }
}

/// The entries of a map, as blobs.
pub open spec fn map_of(data: Seq<u8>) -> Result<Seq<(Val, Val)>, CodecError> {
    match count_at(data) {
        Err(e) => Err(e),
        Ok((n, rest)) => blob_entries_of(rest, n),
    }
}

/// The value of a column with the given type code, from its bytes. An unknown
/// code gives a blob; the elements of a collection are blobs, since their type
/// is not sent.
#[verifier::opaque]
pub open spec fn column_data(data: Seq<u8>, type_code: u16) -> Decoded {
    let wrong = Decoded::Err(CodecError::InvalidLength(type_code, data.len() as usize));
    if type_code == 0x0001 {
        Ok(Val::Ascii(utf8_lossy(data)))
    } else if type_code == 0x0002 {
        if data.len() != 8 { wrong } else { Ok(Val::BigInt(signed8(un8(data)) as i64)) }
    } else if type_code == 0x0004 {
        Ok(Val::Boolean(data.len() > 0 && data[0] != 0))
    } else if type_code == 0x0005 {
        if data.len() != 8 { wrong } else { Ok(Val::Counter(signed8(un8(data)) as i64)) }
    } else if type_code == 0x0006 {
        if data.len() < 4 {
            wrong
        } else {
            Ok(Val::Decimal(data.skip(4), signed4(un4(data)) as i32))
        }
    } else if type_code == 0x0007 {
        if data.len() != 8 { wrong } else { Ok(Val::Double(un8(data) as u64)) }
    } else if type_code == 0x0008 {
        if data.len() != 4 { wrong } else { Ok(Val::Float(un4(data) as u32)) }
    } else if type_code == 0x0009 {
        if data.len() != 4 { wrong } else { Ok(Val::Int(signed4(un4(data)) as i32)) }
    } else if type_code == 0x000B {
        if data.len() != 8 { wrong } else { Ok(Val::Timestamp(signed8(un8(data)) as i64)) }
    } else if type_code == 0x000C {
        if data.len() != 16 { wrong } else { Ok(Val::Uuid(data)) }
    } else if type_code == 0x000D {
        Ok(Val::Text(utf8_lossy(data)))
    } else if type_code == 0x000E {
        Ok(Val::Varint(data))
    } else if type_code == 0x000F {
        if data.len() != 16 { wrong } else { Ok(Val::Timeuuid(data)) }
    } else if type_code == 0x0010 {
        if data.len() != 4 && data.len() != 16 { wrong } else { Ok(Val::Inet(data)) }
    } else if type_code == 0x0011 {
        if data.len() != 4 { wrong } else { Ok(Val::Date(un4(data) as u32)) }
    } else if type_code == 0x0012 {
        if data.len() != 8 { wrong } else { Ok(Val::Time(signed8(un8(data)) as i64)) }
    } else if type_code == 0x0013 {
        if data.len() != 2 { wrong } else { Ok(Val::SmallInt(signed2(un2(data)) as i16)) }
    } else if type_code == 0x0014 {
        if data.len() != 1 { wrong } else { Ok(Val::TinyInt(signed1(data[0] as int) as i8)) }
    } else if type_code == 0x0015 {
        duration_of(data)
    } else if type_code == 0x0020 {
        match collection_of(data, Part::ListElement) {
            Ok(elements) => Ok(Val::List(elements)),
            Err(e) => Err(e),
        }
    } else if type_code == 0x0021 {
        match map_of(data) {
            Ok(entries) => Ok(Val::MapOf(entries)),
            Err(e) => Err(e),
        }
    } else if type_code == 0x0022 {
        match collection_of(data, Part::SetElement) {
            Ok(elements) => Ok(Val::SetOf(elements)),
            Err(e) => Err(e),
        }
    } else if type_code == 0x0030 {
        if data.len() % 4 != 0 {
            Err(CodecError::VectorDataLength(data.len() as usize))
        } else {
            Ok(Val::Vector(float_vals(data, data.len() / 4)))
        }
    } else {
        Ok(Val::Blob(data))
    }
}

/// The value of a column at the front of the bytes, behind its length.
pub open spec fn column_value_at(s: Seq<u8>, type_code: u16) -> At<Option<Val>> {
    match nullable_at(s, Part::ColumnValue) {
        Err(e) => Err(e),
        Ok((None, rest)) => Ok((None, rest)),
        Ok((Some(data), rest)) => match column_data(data, type_code) {
            Ok(v) => Ok((Some(v), rest)),
            Err(e) => Err(e),
        },
    }
}

/// Copies four bytes.
pub fn array4(data: &[u8]) -> (a: [u8; 4])
    requires
        data@.len() == 4,
    ensures
        a@ == data@,
{
    let a: [u8; 4] = [data[0], data[1], data[2], data[3]];
    assert(a@ =~= data@);
    a
}

/// Copies sixteen bytes.
pub fn array16(data: &[u8]) -> (a: [u8; 16])
    requires
        data@.len() == 16,
    ensures
        a@ == data@,
{
    let a: [u8; 16] = [
        data[0],
        data[1],
        data[2],
        data[3],
        data[4],
        data[5],
        data[6],
        data[7],
        data[8],
        data[9],
        data[10],
        data[11],
        data[12],
        data[13],
        data[14],
        data[15],
    ];
    assert(a@ =~= data@);
    a
}

/// Copies bytes.
pub fn copy_bytes(data: &[u8]) -> (v: Vec<u8>)
    ensures
        v@ == data@,
{
    vstd::slice::slice_to_vec(data)
}

/// Reads `n` single-precision floats.
pub fn read_floats(data: &[u8], n: usize) -> (v: Vec<CqlValue>)
    requires
        4 * n <= data@.len(),
    ensures
        vals(v@) == float_vals(data@, n as nat),
{
    let len: usize = data.len();
    let mut v: Vec<CqlValue> = Vec::new();
    let mut i: usize = 0;
    while i < n
        invariant
            i <= n,
            4 * n <= len,
            len == data@.len(),
            v@.len() == i,
            forall|j: int| 0 <= j < i ==> (#[trigger] v@[j])@ == Val::Float(un4(data@.skip(4 * j)) as u32),
        decreases n - i,
    {
        let group: &[u8] = &data[4 * i..4 * i + 4];
        let ghost tail = data@.skip(4 * i as int);
        assert(group@[0] == tail[0] && group@[1] == tail[1] && group@[2] == tail[2] && group@[3]
            == tail[3]);
        v.push(CqlValue::Float(read_be4(group)));
        i = i + 1;
    }
    assert(vals(v@) =~= float_vals(data@, n as nat));
    v
}

/// The lower 32 bits of a number, read as a signed one.
pub fn wrap_i32(n: i64) -> (r: i32)
    ensures
        r == low_i32(n),
{
    if n >= 0 {
        to_i32((n as u64 % 0x1_0000_0000) as u32)
    } else {
        let below: u64 = (-(n + 1)) as u64;
        let low: u32 = 0xFFFF_FFFF - (below % 0x1_0000_0000) as u32;
        assert(low == n as int % 0x1_0000_0000);
        to_i32(low)
    }
}

/// Reads the number of items that a collection announces.
pub fn read_count(slice: &mut &[u8]) -> (r: Result<usize, CodecError>)
    ensures
        match count_at(old(slice)@) {
            Ok((n, rest)) => r is Ok && r->Ok_0 == n && final(slice)@ == rest,
            Err(e) => r == Err::<usize, CodecError>(e),
        },
        r is Err ==> final(slice)@ == nullable_left(old(slice)@),
{
    match read_int(slice) {
        Ok(n) => if n < 0 {
            Err(CodecError::NegativeCount(n))
        } else {
            Ok(n as usize)
        },
        Err(e) => Err(e),
    }
}

/// Decodes the elements of a list or set.
fn decode_collection(data: &[u8], part: Part) -> (r: Result<Vec<CqlValue>, CodecError>)
    ensures
        match collection_of(data@, part) {
            Ok(elements) => r is Ok && vals(r->Ok_0@) == elements,
            Err(e) => r == Err::<Vec<CqlValue>, CodecError>(e),
        },
{
    let mut cursor: &[u8] = data;
    let n: usize = match read_count(&mut cursor) {
        Ok(n) => n,
        Err(e) => {
            return Err(e);
        },
    };
    let ghost all = blobs_of(cursor@, n as nat, part);
    let mut elements: Vec<CqlValue> = Vec::new();
    let mut i: usize = 0;
    proof {
        lemma_after(Seq::empty(), Seq::empty(), all);
        assert(vals(elements@) =~= Seq::empty());
    }
    while i < n
        invariant
            i <= n,
            all == after(vals(elements@), blobs_of(cursor@, (n - i) as nat, part)),
            collection_of(data@, part) == all,
        decreases n - i,
    {
        let ghost before = cursor@;
        let ghost done = vals(elements@);
        match read_nullable(&mut cursor, part) {
            Err(e) => {
                return Err(e);
            },
            Ok(None) => {},
            Ok(Some(item)) => {
                let v: CqlValue = CqlValue::Blob(copy_bytes(item));
                proof {
                    lemma_vals_push(elements@, v);
                    lemma_after(
                        done,
                        seq![v@],
                        blobs_of(cursor@, (n - i - 1) as nat, part),
                    );
                    assert(done.push(v@) =~= done + seq![v@]);
                }
                elements.push(v);
            },
        }
        i = i + 1;
    }
    proof {
        lemma_after(vals(elements@), Seq::empty(), all);
    }
    Ok(elements)
}

/// Decodes the entries of a map.
fn decode_map(data: &[u8]) -> (r: Result<Vec<(CqlValue, CqlValue)>, CodecError>)
    ensures
        match map_of(data@) {
            Ok(entries) => r is Ok && entry_vals(r->Ok_0@) == entries,
            Err(e) => r == Err::<Vec<(CqlValue, CqlValue)>, CodecError>(e),
        },
{
    let mut cursor: &[u8] = data;
    let n: usize = match read_count(&mut cursor) {
        Ok(n) => n,
        Err(e) => {
            return Err(e);
        },
    };
    let ghost all = blob_entries_of(cursor@, n as nat);
    let mut entries: Vec<(CqlValue, CqlValue)> = Vec::new();
    let mut i: usize = 0;
    proof {
        lemma_after(Seq::empty(), Seq::empty(), all);
        assert(entry_vals(entries@) =~= Seq::empty());
    }
    while i < n
        invariant
            i <= n,
            all == after(entry_vals(entries@), blob_entries_of(cursor@, (n - i) as nat)),
            map_of(data@) == all,
        decreases n - i,
    {
        let ghost done = entry_vals(entries@);
        match read_nullable(&mut cursor, Part::MapKey) {
            Err(e) => {
                return Err(e);
            },
            Ok(None) => {
                if let Err(e) = read_nullable(&mut cursor, Part::MapValue) {
                    return Err(e);
                }
            },
            Ok(Some(key)) => {
                let value: CqlValue = match read_nullable(&mut cursor, Part::MapValue) {
                    Err(e) => {
                        return Err(e);
                    },
                    Ok(None) => CqlValue::Empty,
                    Ok(Some(value)) => CqlValue::Blob(copy_bytes(value)),
                };
                let entry: (CqlValue, CqlValue) = (CqlValue::Blob(copy_bytes(key)), value);
                proof {
                    lemma_entry_vals_push(entries@, entry);
                    lemma_after(
                        done,
                        seq![(entry.0@, entry.1@)],
                        blob_entries_of(cursor@, (n - i - 1) as nat),
                    );
                    assert(done.push((entry.0@, entry.1@)) =~= done + seq![(entry.0@, entry.1@)]);
                }
                entries.push(entry);
            },
        }
        i = i + 1;
    }
    proof {
        lemma_after(entry_vals(entries@), Seq::empty(), all);
    }
    Ok(entries)
}

/// Decodes a duration.
fn decode_duration(data: &[u8]) -> (r: Result<CqlValue, CodecError>)
    ensures
        did_decode(duration_of(data@), r),
{
    let mut cursor: &[u8] = data;
    let months: i64 = match decode_vint(&mut cursor) {
        Ok(n) => n,
        Err(e) => {
            return Err(e);
        },
    };
    let days: i64 = match decode_vint(&mut cursor) {
        Ok(n) => n,
        Err(e) => {
            return Err(e);
        },
    };
    let nanoseconds: i64 = match decode_vint(&mut cursor) {
        Ok(n) => n,
        Err(e) => {
            return Err(e);
        },
    };
    Ok(
        CqlValue::Duration(
            CqlDuration { months: wrap_i32(months), days: wrap_i32(days), nanoseconds },
        ),
    )
}

/// Decodes the bytes of a column with the given type code.
fn decode_column_data(data: &[u8], type_code: u16) -> (r: Result<CqlValue, CodecError>)
    ensures
        did_decode(column_data(data@, type_code), r),
{
    proof {
        reveal(column_data);
    }
    let len: usize = data.len();
    let wrong: CodecError = CodecError::InvalidLength(type_code, len);
    match type_code {
        0x0001 => Ok(CqlValue::Ascii(from_utf8_lossy(data))),
        0x0002 => if len != 8 {
            Err(wrong)
        } else {
            Ok(CqlValue::BigInt(to_i64(read_be8(data))))
        },
        0x0003 => Ok(CqlValue::Blob(copy_bytes(data))),
        0x0004 => Ok(CqlValue::Boolean(len > 0 && data[0] != 0)),
        0x0005 => if len != 8 {
            Err(wrong)
        } else {
            Ok(CqlValue::Counter(to_i64(read_be8(data))))
        },
        0x0006 => if len < 4 {
            Err(wrong)
        } else {
            let (_, mantissa): (&[u8], &[u8]) = data.split_at(4);
            Ok(
                CqlValue::Decimal {
                    mantissa: copy_bytes(mantissa),
                    scale: to_i32(read_be4(data)),
                },
            )
        },
        0x0007 => if len != 8 {
            Err(wrong)
        } else {
            Ok(CqlValue::Double(read_be8(data)))
        },
        0x0008 => if len != 4 {
            Err(wrong)
        } else {
            Ok(CqlValue::Float(read_be4(data)))
        },
        0x0009 => if len != 4 {
            Err(wrong)
        } else {
            Ok(CqlValue::Int(to_i32(read_be4(data))))
        },
        0x000B => if len != 8 {
            Err(wrong)
        } else {
            Ok(CqlValue::Timestamp(to_i64(read_be8(data))))
        },
        0x000C => if len != 16 {
            Err(wrong)
        } else {
            Ok(CqlValue::Uuid(array16(data)))
        },
        0x000D => Ok(CqlValue::Text(from_utf8_lossy(data))),
        0x000E => Ok(CqlValue::Varint(copy_bytes(data))),
        0x000F => if len != 16 {
            Err(wrong)
        } else {
            Ok(CqlValue::Timeuuid(array16(data)))
        },
        0x0010 => if len == 4 {
            Ok(CqlValue::Inet(IpAddr::V4(array4(data))))
        } else if len == 16 {
            Ok(CqlValue::Inet(IpAddr::V6(array16(data))))
        } else {
            Err(wrong)
        },
        0x0011 => if len != 4 {
            Err(wrong)
        } else {
            Ok(CqlValue::Date(read_be4(data)))
        },
        0x0012 => if len != 8 {
            Err(wrong)
        } else {
            Ok(CqlValue::Time(to_i64(read_be8(data))))
        },
        0x0013 => if len != 2 {
            Err(wrong)
        } else {
            Ok(CqlValue::SmallInt(to_i16(read_be2(data))))
        },
        0x0014 => if len != 1 {
            Err(wrong)
        } else {
            Ok(CqlValue::TinyInt(to_i8(data[0])))
        },
        0x0015 => decode_duration(data),
        0x0020 => match decode_collection(data, Part::ListElement) {
            Ok(elements) => Ok(CqlValue::List(elements)),
            Err(e) => Err(e),
        },
        0x0021 => match decode_map(data) {
            Ok(entries) => Ok(CqlValue::MapOf(entries)),
            Err(e) => Err(e),
        },
        0x0022 => match decode_collection(data, Part::SetElement) {
            Ok(elements) => Ok(CqlValue::SetOf(elements)),
            Err(e) => Err(e),
        },
        0x0030 => if len % 4 != 0 {
            Err(CodecError::VectorDataLength(len))
        } else {
            Ok(CqlValue::Vector(read_floats(data, len / 4)))
        },
        _ => Ok(CqlValue::Blob(copy_bytes(data))),
    }
}

/// The bytes that are left when the value of a column cannot be decoded:
/// behind its data, unless they are cut off.
pub open spec fn column_value_left(s: Seq<u8>) -> Seq<u8> {
    match nullable_at(s, Part::ColumnValue) {
        Ok((_, rest)) => rest,
        Err(_) => nullable_left(s),
    }
}

/// Decodes the value of a column behind its length; a negative length is a null.
pub fn decode_column_value(slice: &mut &[u8], type_code: u16) -> (r: Result<
    Option<CqlValue>,
    CodecError,
>)
    ensures
        match column_value_at(old(slice)@, type_code) {
            Ok((v, rest)) => r is Ok && opt_val(r->Ok_0) == v && final(slice)@ == rest,
            Err(e) => r == Err::<Option<CqlValue>, CodecError>(e),
        },
        r is Err ==> final(slice)@ == column_value_left(old(slice)@),
{
    match read_nullable(slice, Part::ColumnValue) {
        Err(e) => Err(e),
        Ok(None) => Ok(None),
        Ok(Some(data)) => match decode_column_data(data, type_code) {
            Ok(v) => Ok(Some(v)),
            Err(e) => Err(e),
        },
    }
}

/// A column at the front of the bytes: its keyspace, table, name and type code.
pub open spec fn column_at(s: Seq<u8>) -> At<Column> {
    match lossy_string_at(s) {
        Err(e) => Err(e),
        Ok((keyspace, s)) => match lossy_string_at(s) {
            Err(e) => Err(e),
            Ok((table, s)) => match lossy_string_at(s) {
                Err(e) => Err(e),
                Ok((name, s)) => match short_at(s) {
                    Err(e) => Err(e),
                    Ok((type_code, s)) => Ok((Column { keyspace, table, name, type_code }, s)),
                },
            },
        },
    }
}

/// The next `n` columns.
pub open spec fn columns_at(s: Seq<u8>, n: nat) -> At<Seq<Column>>
    decreases n,
{
    if n == 0 {
        Ok((Seq::empty(), s))
    } else {
        match column_at(s) {
            Err(e) => Err(e),
            Ok((column, s)) => match columns_at(s, (n - 1) as nat) {
                Err(e) => Err(e),
                Ok((columns, s)) => Ok((seq![column] + columns, s)),
            },
        }
    }
}

/// The values of the columns from the `k`-th on.
pub open spec fn row_at(s: Seq<u8>, columns: Seq<Column>, k: nat) -> At<Seq<Option<Val>>>
    decreases columns.len() - k,
{
    if k >= columns.len() {
        Ok((Seq::empty(), s))
    } else {
        match column_value_at(s, columns[k as int].type_code) {
            Err(e) => Err(e),
            Ok((v, s)) => match row_at(s, columns, k + 1) {
                Err(e) => Err(e),
                Ok((row, s)) => Ok((seq![v] + row, s)),
            },
        }
    }
}

/// The next `n` rows.
pub open spec fn rows_at(s: Seq<u8>, columns: Seq<Column>, n: nat) -> At<Seq<Seq<Option<Val>>>>
    decreases n,
{
    if n == 0 {
        Ok((Seq::empty(), s))
    } else {
        match row_at(s, columns, 0) {
            Err(e) => Err(e),
            Ok((row, s)) => match rows_at(s, columns, (n - 1) as nat) {
                Err(e) => Err(e),
                Ok((rows, s)) => Ok((seq![row] + rows, s)),
            },
        }
    }
}

/// The rows of a result: flags, which are not looked at, the columns and the rows.
pub open spec fn rows_result_at(s: Seq<u8>) -> At<Outcome> {
    match int_at(s) {
        Err(e) => Err(e),
        Ok((_, s)) => match count_at(s) {
            Err(e) => Err(e),
            Ok((n, s)) => match columns_at(s, n) {
                Err(e) => Err(e),
                Ok((columns, s)) => match count_at(s) {
                    Err(e) => Err(e),
                    Ok((n, s)) => match rows_at(s, columns, n) {
                        Err(e) => Err(e),
                        Ok((rows, s)) => Ok((Outcome::Rows(columns, rows), s)),
                    },
                },
            },
        },
    }
}

/// The bytes that are left when a column cannot be decoded.
pub open spec fn column_left(s: Seq<u8>) -> Seq<u8> {
    match lossy_string_at(s) {
        Err(_) => string_left(s),
        Ok((_, s)) => match lossy_string_at(s) {
            Err(_) => string_left(s),
            Ok((_, s)) => match lossy_string_at(s) {
                Err(_) => string_left(s),
                Ok((_, s)) => s,
            },
        },
    }
}

/// The bytes that are left when one of the next `n` columns cannot be decoded.
pub open spec fn columns_left(s: Seq<u8>, n: nat) -> Seq<u8>
    decreases n,
{
    if n == 0 {
        s
    } else {
        match column_at(s) {
            Err(_) => column_left(s),
            Ok((_, s)) => columns_left(s, (n - 1) as nat),
        }
    }
}

/// The bytes that are left when a value of the columns from the `k`-th on
/// cannot be decoded.
pub open spec fn row_left(s: Seq<u8>, columns: Seq<Column>, k: nat) -> Seq<u8>
    decreases columns.len() - k,
{
    if k >= columns.len() {
        s
    } else {
        match column_value_at(s, columns[k as int].type_code) {
            Err(_) => column_value_left(s),
            Ok((_, s)) => row_left(s, columns, k + 1),
        }
    }
}

/// The bytes that are left when one of the next `n` rows cannot be decoded.
pub open spec fn rows_left(s: Seq<u8>, columns: Seq<Column>, n: nat) -> Seq<u8>
    decreases n,
{
    if n == 0 {
        s
    } else {
        match row_at(s, columns, 0) {
            Err(_) => row_left(s, columns, 0),
            Ok((_, s)) => rows_left(s, columns, (n - 1) as nat),
        }
    }
}

/// The bytes that are left when the rows of a result cannot be decoded.
pub open spec fn rows_result_left(s: Seq<u8>) -> Seq<u8> {
    match int_at(s) {
        Err(_) => s,
        Ok((_, s)) => match count_at(s) {
            Err(_) => nullable_left(s),
            Ok((n, s)) => match columns_at(s, n) {
                Err(_) => columns_left(s, n),
                Ok((columns, s)) => match count_at(s) {
                    Err(_) => nullable_left(s),
                    Ok((n, s)) => rows_left(s, columns, n),
                },
            },
        },
    }
}

/// `at`, with `done` in front of its items.
pub open spec fn after_at<T>(done: Seq<T>, at: At<Seq<T>>) -> At<Seq<T>> {
    match at {
        Ok((items, rest)) => Ok((done + items, rest)),
        Err(e) => Err(e),
    }
}

/// Items in front of items in front of the rest are the joined items in front of the rest.
pub proof fn lemma_after_at<T>(done: Seq<T>, item: T, at: At<Seq<T>>, s: Seq<u8>)
    ensures
        after_at(done, after_at(seq![item], at)) == after_at(done.push(item), at),
        after_at(done, Ok((Seq::empty(), s))) == At::Ok((done, s)),
        after_at(Seq::empty(), at) == at,
{
    if let Ok((items, rest)) = at {
        assert(done + (seq![item] + items) =~= done.push(item) + items);
        assert(Seq::empty() + items =~= items);
    }
    assert(done + Seq::empty() =~= done);
}

/// Decodes a column.
fn decode_column(slice: &mut &[u8]) -> (r: Result<ColumnInfo, CodecError>)
    ensures
        match column_at(old(slice)@) {
            Ok((column, rest)) => r is Ok && r->Ok_0@ == column && final(slice)@ == rest,
            Err(e) => r == Err::<ColumnInfo, CodecError>(e),
        },
        r is Err ==> final(slice)@ == column_left(old(slice)@),
{
    let keyspace: String = match read_lossy_string(slice) {
        Ok(v) => v,
        Err(e) => {
            return Err(e);
        },
    };
    let table: String = match read_lossy_string(slice) {
        Ok(v) => v,
        Err(e) => {
            return Err(e);
        },
    };
    let name: String = match read_lossy_string(slice) {
        Ok(v) => v,
        Err(e) => {
            return Err(e);
        },
    };
    let type_code: u16 = match read_short(slice) {
        Ok(v) => v,
        Err(e) => {
            return Err(e);
        },
    };
    Ok(ColumnInfo { keyspace, table, name, type_code })
}

/// Decodes columns.
fn decode_columns(slice: &mut &[u8], n: usize) -> (r: Result<Vec<ColumnInfo>, CodecError>)
    ensures
        match columns_at(old(slice)@, n as nat) {
            Ok((columns, rest)) => r is Ok && columns_of(r->Ok_0@) == columns && final(slice)@
                == rest,
            Err(e) => r == Err::<Vec<ColumnInfo>, CodecError>(e),
        },
        r is Err ==> final(slice)@ == columns_left(old(slice)@, n as nat),
{
    let mut columns: Vec<ColumnInfo> = Vec::new();
    let mut i: usize = 0;
    let ghost start = slice@;
    proof {
        assert(columns_of(columns@) =~= Seq::empty());
        lemma_after_at(Seq::<Column>::empty(), arbitrary(), columns_at(start, n as nat), start);
    }
    while i < n
        invariant
            i <= n,
            start == old(slice)@,
            columns_at(start, n as nat) == after_at(
                columns_of(columns@),
                columns_at(slice@, (n - i) as nat),
            ),
            columns_left(start, n as nat) == columns_left(slice@, (n - i) as nat),
        decreases n - i,
    {
        let ghost done = columns_of(columns@);
        let column: ColumnInfo = match decode_column(slice) {
            Ok(column) => column,
            Err(e) => {
                return Err(e);
            },
        };
        proof {
            lemma_after_at(done, column@, columns_at(slice@, (n - i - 1) as nat), start);
            assert(columns_of(columns@.push(column)) =~= done.push(column@));
        }
        columns.push(column);
        i = i + 1;
    }
    proof {
        lemma_after_at(columns_of(columns@), arbitrary(), columns_at(start, n as nat), slice@);
    }
    Ok(columns)
}

/// Decodes a row.
fn decode_row(slice: &mut &[u8], columns: &Vec<ColumnInfo>) -> (r: Result<
    Vec<Option<CqlValue>>,
    CodecError,
>)
    ensures
        match row_at(old(slice)@, columns_of(columns@), 0) {
            Ok((row, rest)) => r is Ok && opt_vals(r->Ok_0@) == row && final(slice)@ == rest,
            Err(e) => r == Err::<Vec<Option<CqlValue>>, CodecError>(e),
        },
        r is Err ==> final(slice)@ == row_left(old(slice)@, columns_of(columns@), 0),
{
    let mut row: Vec<Option<CqlValue>> = Vec::new();
    let mut k: usize = 0;
    let ghost start = slice@;
    let ghost cols = columns_of(columns@);
    proof {
        assert(opt_vals(row@) =~= Seq::empty());
        lemma_after_at(Seq::<Option<Val>>::empty(), None, row_at(start, cols, 0), start);
    }
    while k < columns.len()
        invariant
            k <= columns.len(),
            start == old(slice)@,
            cols == columns_of(columns@),
            row_at(start, cols, 0) == after_at(opt_vals(row@), row_at(slice@, cols, k as nat)),
            row_left(start, cols, 0) == row_left(slice@, cols, k as nat),
        decreases columns.len() - k,
    {
        let ghost done = opt_vals(row@);
        assert(cols[k as int] == columns@[k as int]@);
        let v: Option<CqlValue> = match decode_column_value(slice, columns[k].type_code) {
            Ok(v) => v,
            Err(e) => {
                return Err(e);
            },
        };
        proof {
            lemma_after_at(done, opt_val(v), row_at(slice@, cols, (k + 1) as nat), start);
            lemma_opt_vals_push(row@, v);
        }
        row.push(v);
        k = k + 1;
    }
    proof {
        lemma_after_at(opt_vals(row@), None, row_at(start, cols, 0), slice@);
    }
    Ok(row)
}

/// Decodes rows.
fn decode_rows(slice: &mut &[u8], columns: &Vec<ColumnInfo>, n: usize) -> (r: Result<
    Vec<Vec<Option<CqlValue>>>,
    CodecError,
>)
    ensures
        match rows_at(old(slice)@, columns_of(columns@), n as nat) {
            Ok((rows, rest)) => r is Ok && rows_of(r->Ok_0@) == rows && final(slice)@ == rest,
            Err(e) => r == Err::<Vec<Vec<Option<CqlValue>>>, CodecError>(e),
        },
        r is Err ==> final(slice)@ == rows_left(old(slice)@, columns_of(columns@), n as nat),
{
    let mut rows: Vec<Vec<Option<CqlValue>>> = Vec::new();
    let mut i: usize = 0;
    let ghost start = slice@;
    let ghost cols = columns_of(columns@);
    proof {
        assert(rows_of(rows@) =~= Seq::empty());
        lemma_after_at(
            Seq::<Seq<Option<Val>>>::empty(),
            Seq::empty(),
            rows_at(start, cols, n as nat),
            start,
        );
    }
    while i < n
        invariant
            i <= n,
            start == old(slice)@,
            cols == columns_of(columns@),
            rows_at(start, cols, n as nat) == after_at(
                rows_of(rows@),
                rows_at(slice@, cols, (n - i) as nat),
            ),
            rows_left(start, cols, n as nat) == rows_left(slice@, cols, (n - i) as nat),
        decreases n - i,
    {
        let ghost done = rows_of(rows@);
        let row: Vec<Option<CqlValue>> = match decode_row(slice, columns) {
            Ok(row) => row,
            Err(e) => {
                return Err(e);
            },
        };
        proof {
            lemma_after_at(done, opt_vals(row@), rows_at(slice@, cols, (n - i - 1) as nat), start);
            assert(rows_of(rows@.push(row)) =~= done.push(opt_vals(row@)));
        }
        rows.push(row);
        i = i + 1;
    }
    proof {
        lemma_after_at(rows_of(rows@), Seq::empty(), rows_at(start, cols, n as nat), slice@);
    }
    Ok(rows)
}

/// Decodes the rows of a result, behind the result's kind.
pub fn decode_rows_result(slice: &mut &[u8]) -> (r: Result<QueryResult, CodecError>)
    ensures
        match rows_result_at(old(slice)@) {
            Ok((outcome, rest)) => r is Ok && r->Ok_0@ == outcome && final(slice)@ == rest,
            Err(e) => r == Err::<QueryResult, CodecError>(e),
        },
        r is Err ==> final(slice)@ == rows_result_left(old(slice)@),
{
    if let Err(e) = read_int(slice) {
        return Err(e);
    }
    let columns_count: usize = match read_count(slice) {
        Ok(n) => n,
        Err(e) => {
            return Err(e);
        },
    };
    let columns: Vec<ColumnInfo> = match decode_columns(slice, columns_count) {
        Ok(columns) => columns,
        Err(e) => {
            return Err(e);
        },
    };
    let row_count: usize = match read_count(slice) {
        Ok(n) => n,
        Err(e) => {
            return Err(e);
        },
    };
    match decode_rows(slice, &columns, row_count) {
        Ok(rows) => Ok(QueryResult::Rows { columns, rows }),
        Err(e) => Err(e),
    }
}

/// The value that bytes without a length stand for; no bytes stand for a null.
/// Their number is taken in 32 bits, as a length on the wire: where it is
/// negative there, they stand for a null, and only so many bytes are read.
pub open spec fn column_value_of(data: Seq<u8>, type_code: u16) -> Result<
    Option<Val>,
    CodecError,
> {
    let len = signed4(data.len() as int % 0x1_0000_0000);
    if data.len() == 0 || len < 0 {
        Ok(None)
    } else {
        match column_data(data.take(len), type_code) {
            Ok(v) => Ok(Some(v)),
            Err(e) => Err(e),
        }
    }
}

/// Decodes a value from bytes without a length.
pub fn decode_column_value_from_bytes(data: &[u8], type_code: u16) -> (r: Result<
    Option<CqlValue>,
    CodecError,
>)
    ensures
        match column_value_of(data@, type_code) {
            Ok(v) => r is Ok && opt_val(r->Ok_0) == v,
            Err(e) => r == Err::<Option<CqlValue>, CodecError>(e),
        },
{
    if data.len() == 0 {
        return Ok(None);
    }
    let len: i32 = to_i32((data.len() as u64 % 0x1_0000_0000) as u32);
    if len < 0 {
        return Ok(None);
    }
    let (head, _): (&[u8], &[u8]) = data.split_at(len as usize);
    match decode_column_data(head, type_code) {
        Ok(v) => Ok(Some(v)),
        Err(e) => Err(e),
    }
}

} // verus!
