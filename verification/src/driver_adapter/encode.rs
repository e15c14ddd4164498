//! Encoding of result values by the types of their columns.

use crate::error::{after, lemma_after, wrote, Coded, CodecError, Limit};
use crate::ipc::encode::{max_len, sized};
use crate::value::{
    entry_vals, field_vals, opt_val, opt_vals, vals, ColumnType, CqlDuration, CqlValue, IpAddr,
    NativeType, Val,
};
use crate::vint::{encode_vint, group_bytes, zigzag};
use crate::wire::{
    be2, be4, be8, low_u32, mut_contents, mut_slice, new_buffer, put_i16, put_i32, put_i64,
    put_i8, put_slice, put_u32, put_u64, put_u8,
};
use bytes::BytesMut;
use vstd::prelude::*;
use vstd::string::*;
use vstd::utf8::encode_utf8;

verus! {

broadcast use crate::wire::group_be;

/// The code of a column type, if it has one.
pub open spec fn type_code_of(t: ColumnType) -> Option<u16> {
    match t {
        ColumnType::Native(NativeType::Ascii) => Some(0x0001),
        ColumnType::Native(NativeType::BigInt) => Some(0x0002),
        ColumnType::Native(NativeType::Blob) => Some(0x0003),
        ColumnType::Native(NativeType::Boolean) => Some(0x0004),
        ColumnType::Native(NativeType::Counter) => Some(0x0005),
        ColumnType::Native(NativeType::Decimal) => Some(0x0006),
        ColumnType::Native(NativeType::Double) => Some(0x0007),
        ColumnType::Native(NativeType::Float) => Some(0x0008),
        ColumnType::Native(NativeType::Int) => Some(0x0009),
        ColumnType::Native(NativeType::Timestamp) => Some(0x000B),
        ColumnType::Native(NativeType::Uuid) => Some(0x000C),
        ColumnType::Native(NativeType::Text) => Some(0x000D),
        ColumnType::Native(NativeType::Varint) => Some(0x000E),
        ColumnType::Native(NativeType::Timeuuid) => Some(0x000F),
        ColumnType::Native(NativeType::Inet) => Some(0x0010),
        ColumnType::Native(NativeType::Date) => Some(0x0011),
        ColumnType::Native(NativeType::Time) => Some(0x0012),
        ColumnType::Native(NativeType::SmallInt) => Some(0x0013),
        ColumnType::Native(NativeType::TinyInt) => Some(0x0014),
        ColumnType::Native(NativeType::Duration) => Some(0x0015),
        ColumnType::List(_) => Some(0x0020),
        ColumnType::MapOf(_, _) => Some(0x0021),
        ColumnType::SetOf(_) => Some(0x0022),
        ColumnType::Vector { .. } => Some(0x0030),
        ColumnType::Tuple(_) => Some(0x0031),
        ColumnType::UserDefinedType(_) => Some(0x0040),
        ColumnType::Other => None,
    }
}

/// The code of a column type, if it has one.
pub fn type_code(column_type: &ColumnType) -> (code: Option<u16>)
    ensures
        code == type_code_of(*column_type),
{
    match column_type {
        ColumnType::Native(NativeType::Ascii) => Some(0x0001),
        ColumnType::Native(NativeType::BigInt) => Some(0x0002),
        ColumnType::Native(NativeType::Blob) => Some(0x0003),
        ColumnType::Native(NativeType::Boolean) => Some(0x0004),
        ColumnType::Native(NativeType::Counter) => Some(0x0005),
        ColumnType::Native(NativeType::Decimal) => Some(0x0006),
        ColumnType::Native(NativeType::Double) => Some(0x0007),
        ColumnType::Native(NativeType::Float) => Some(0x0008),
        ColumnType::Native(NativeType::Int) => Some(0x0009),
        ColumnType::Native(NativeType::Timestamp) => Some(0x000B),
        ColumnType::Native(NativeType::Uuid) => Some(0x000C),
        ColumnType::Native(NativeType::Text) => Some(0x000D),
        ColumnType::Native(NativeType::Varint) => Some(0x000E),
        ColumnType::Native(NativeType::Timeuuid) => Some(0x000F),
        ColumnType::Native(NativeType::Inet) => Some(0x0010),
        ColumnType::Native(NativeType::Date) => Some(0x0011),
        ColumnType::Native(NativeType::Time) => Some(0x0012),
        ColumnType::Native(NativeType::SmallInt) => Some(0x0013),
        ColumnType::Native(NativeType::TinyInt) => Some(0x0014),
        ColumnType::Native(NativeType::Duration) => Some(0x0015),
        ColumnType::List(_) => Some(0x0020),
        ColumnType::MapOf(_, _) => Some(0x0021),
        ColumnType::SetOf(_) => Some(0x0022),
        ColumnType::Vector { .. } => Some(0x0030),
        ColumnType::Tuple(_) => Some(0x0031),
        ColumnType::UserDefinedType(_) => Some(0x0040),
        ColumnType::Other => None,
    }
}

/// Data behind its length, refused where the length does not fit.
pub open spec fn checked_sized(data: Seq<u8>) -> Coded {
    if data.len() > max_len() {
        Err(CodecError::TooLong(Limit::Length))
    } else {
        Ok(sized(data))
    }
}

/// The floats of a vector; anything else in it is refused.
pub open spec fn float_bytes(elements: Seq<Val>) -> Coded
    decreases elements.len(),
{
    if elements.len() == 0 {
        Ok(Seq::empty())
    } else {
        match elements[0] {
            Val::Float(bits) => after(be4(bits as int), float_bytes(elements.skip(1))),
            _ => Err(CodecError::VectorElement),
        }
    }
}

/// Items behind their number, all behind their length.
pub open spec fn counted(n: nat, items: Coded) -> Coded {
    if n > max_len() {
        Err(CodecError::TooLong(Limit::Elements))
    } else {
        match items {
            Ok(bytes) => Ok(sized(be4(n as int) + bytes)),
            Err(e) => Err(e),
        }
    }
}

/// An item of a collection: its length and its data. An item that has no
/// encoding for the type is sent as null.
pub open spec fn element_bytes(t: ColumnType, v: Val) -> Coded
    decreases t, 1int, 0nat,
{
    match (t, v) {
        (ColumnType::Native(NativeType::Int), Val::Int(n)) => Ok(sized(be4(n as int))),
        (ColumnType::Native(NativeType::BigInt), Val::BigInt(n)) => Ok(sized(be8(n as int))),
        (ColumnType::Native(NativeType::Text), Val::Text(s)) => Ok(sized(encode_utf8(s))),
        (ColumnType::Native(NativeType::Float), Val::Float(bits)) => Ok(sized(be4(bits as int))),
        (ColumnType::Native(NativeType::Double), Val::Double(bits)) => Ok(
            sized(be8(bits as int)),
        ),
        (ColumnType::Native(NativeType::Boolean), Val::Boolean(b)) => Ok(
            sized(seq![if b { 1u8 } else { 0u8 }]),
        ),
        (ColumnType::Vector { dimensions, .. }, Val::Vector(s)) => after(
            be4(dimensions * 4),
            float_bytes(s),
        ),
        (ColumnType::List(t), Val::List(s)) => counted(s.len(), all_element_bytes(*t, s)),
        (ColumnType::SetOf(t), Val::SetOf(s)) => counted(s.len(), all_element_bytes(*t, s)),
        (ColumnType::MapOf(_, _), Val::MapOf(s)) => counted(s.len(), all_entry_bytes(t, s)),
        (ColumnType::UserDefinedType(d), Val::Udt(_, _, s)) => match field_bytes(
            d.field_types@,
            s,
            0,
        ) {
            Ok(bytes) => Ok(sized(bytes)),
            Err(e) => Err(e),
        },
        _ => Ok(be4(-1)),
    }
}

/// Items of one type, one after the other.
pub open spec fn all_element_bytes(t: ColumnType, s: Seq<Val>) -> Coded
    decreases t, 2int, s.len(),
{
    if s.len() == 0 {
        Ok(Seq::empty())
    } else {
        match element_bytes(t, s[0]) {
            Ok(bytes) => after(bytes, all_element_bytes(t, s.skip(1))),
            Err(e) => Err(e),
        }
    }
}

/// The entries of a map, each a key and a value.
pub open spec fn all_entry_bytes(t: ColumnType, s: Seq<(Val, Val)>) -> Coded
    recommends
        t is MapOf,
    decreases t, 0int, s.len(),
{
    if s.len() == 0 {
        Ok(Seq::empty())
    } else {
        match t {
            ColumnType::MapOf(k, v) => match element_bytes(*k, s[0].0) {
                Err(e) => Err(e),
                Ok(key) => match element_bytes(*v, s[0].1) {
                    Err(e) => Err(e),
                    Ok(value) => after(key + value, all_entry_bytes(t, s.skip(1))),
                },
            },
            _ => Ok(Seq::empty()),
        }
    }
}

/// An item that may be null.
pub open spec fn opt_element_bytes(t: ColumnType, v: Option<Val>) -> Coded
    decreases t, 3int, 0nat,
{
    match v {
        Some(v) => element_bytes(t, v),
        None => Ok(be4(-1)),
    }
}

/// The fields of a user-defined type from the `k`-th on, matched by position.
pub open spec fn field_bytes(
    types: Seq<(String, ColumnType)>,
    s: Seq<(Seq<char>, Option<Val>)>,
    k: nat,
) -> Coded
    decreases types, 0int, (types.len() - k) as nat,
{
    if k >= types.len() || k >= s.len() {
        Ok(Seq::empty())
    } else {
        match opt_element_bytes(types[k as int].1, s[k as int].1) {
            Ok(bytes) => after(bytes, field_bytes(types, s, k + 1)),
            Err(e) => Err(e),
        }
    }
}

/// The elements of a tuple from the `k`-th on.
pub open spec fn tuple_bytes(types: Seq<ColumnType>, s: Seq<Option<Val>>, k: nat) -> Coded
    decreases types.len() - k,
{
    if k >= types.len() || k >= s.len() {
        Ok(Seq::empty())
    } else {
        match opt_element_bytes(types[k as int], s[k as int]) {
            Ok(bytes) => after(bytes, tuple_bytes(types, s, k + 1)),
            Err(e) => Err(e),
        }
    }
}

/// An element of the list in a list column. Only vectors, floats, integers and
/// texts are sent; any other element is sent as null.
pub open spec fn list_element_bytes(t: ColumnType, v: Val) -> Coded {
    match (t, v) {
        (ColumnType::Vector { .. }, Val::Vector(_)) => element_bytes(t, v),
        (ColumnType::Native(NativeType::Float), Val::Float(_)) => element_bytes(t, v),
        (ColumnType::Native(NativeType::Int), Val::Int(_)) => element_bytes(t, v),
        (ColumnType::Native(NativeType::BigInt), Val::BigInt(_)) => element_bytes(t, v),
        (ColumnType::Native(NativeType::Text), Val::Text(_)) => element_bytes(t, v),
        _ => Ok(be4(-1)),
    }
}

/// The elements of the list in a list column.
pub open spec fn all_list_element_bytes(t: ColumnType, s: Seq<Val>) -> Coded
    decreases s.len(),
{
    if s.len() == 0 {
        Ok(Seq::empty())
    } else {
        match list_element_bytes(t, s[0]) {
            Ok(bytes) => after(bytes, all_list_element_bytes(t, s.skip(1))),
            Err(e) => Err(e),
        }
    }
}

/// Items behind their number, all behind their length, each length checked.
pub open spec fn checked_counted(n: nat, items: Coded, what: Limit) -> Coded {
    if n > max_len() {
        Err(CodecError::TooLong(what))
    } else {
        match items {
            Ok(bytes) => checked_sized(be4(n as int) + bytes),
            Err(e) => Err(e),
        }
    }
}

/// The three variable-length integers of a duration.
pub open spec fn duration_bytes(d: CqlDuration) -> Seq<u8> {
    group_bytes(zigzag(d.months as i64)) + group_bytes(zigzag(d.days as i64)) + group_bytes(
        zigzag(d.nanoseconds),
    )
}

/// The value of a column: its length and its data. A value that does not
/// belong to the column's type is refused.
pub open spec fn column_bytes(t: ColumnType, v: Val) -> Coded {
    match (t, v) {
        (ColumnType::Native(NativeType::Int), Val::Int(n)) => Ok(sized(be4(n as int))),
        (ColumnType::Native(NativeType::Text), Val::Text(s)) => checked_sized(encode_utf8(s)),
        (ColumnType::Native(NativeType::Ascii), Val::Ascii(s)) => checked_sized(encode_utf8(s)),
        (ColumnType::Native(NativeType::BigInt), Val::BigInt(n)) => Ok(sized(be8(n as int))),
        (ColumnType::Native(NativeType::Boolean), Val::Boolean(b)) => Ok(
            sized(seq![if b { 1u8 } else { 0u8 }]),
        ),
        (ColumnType::Native(NativeType::Float), Val::Float(bits)) => Ok(sized(be4(bits as int))),
        (ColumnType::Native(NativeType::Double), Val::Double(bits)) => Ok(
            sized(be8(bits as int)),
        ),
        (ColumnType::Native(NativeType::Uuid), Val::Uuid(b)) => Ok(sized(b)),
        (ColumnType::Native(NativeType::Timeuuid), Val::Timeuuid(b)) => Ok(sized(b)),
        (ColumnType::Native(NativeType::TinyInt), Val::TinyInt(n)) => Ok(
            sized(seq![(n as int % 0x100) as u8]),
        ),
        (ColumnType::Native(NativeType::SmallInt), Val::SmallInt(n)) => Ok(sized(be2(n as int))),
        (ColumnType::Native(NativeType::Blob), Val::Blob(b)) => checked_sized(b),
        (ColumnType::Native(NativeType::Date), Val::Date(n)) => Ok(sized(be4(n as int))),
        (ColumnType::Native(NativeType::Time), Val::Time(n)) => Ok(sized(be8(n as int))),
        (ColumnType::Native(NativeType::Timestamp), Val::Timestamp(n)) => Ok(
            sized(be8(n as int)),
        ),
        (ColumnType::Native(NativeType::Counter), Val::Counter(n)) => Ok(sized(be8(n as int))),
        (ColumnType::Native(NativeType::Inet), Val::Inet(octets)) => Ok(sized(octets)),
        (ColumnType::Native(NativeType::Varint), Val::Varint(b)) => checked_sized(b),
        (ColumnType::Native(NativeType::Decimal), Val::Decimal(b, scale)) => checked_sized(
            be4(scale as int) + b,
        ),
        (ColumnType::Native(NativeType::Duration), Val::Duration(d)) => checked_sized(
            duration_bytes(d),
        ),
        (ColumnType::Vector { dimensions, .. }, Val::Vector(s)) => if s.len() != dimensions {
            Err(CodecError::VectorDimension(dimensions as usize, s.len() as usize))
        } else {
            after(be4(dimensions * 4), float_bytes(s))
        },
        (ColumnType::List(t), Val::List(s)) => checked_counted(
            s.len(),
            all_list_element_bytes(*t, s),
            Limit::ListElements,
        ),
        (ColumnType::SetOf(t), Val::SetOf(s)) => checked_counted(
            s.len(),
            all_element_bytes(*t, s),
            Limit::SetElements,
        ),
        (ColumnType::MapOf(_, _), Val::MapOf(s)) => checked_counted(
            s.len(),
            all_entry_bytes(t, s),
            Limit::MapEntries,
        ),
        (ColumnType::Tuple(types), Val::Tuple(s)) => match tuple_bytes(types@, s, 0) {
            Ok(bytes) => checked_sized(bytes),
            Err(e) => Err(e),
        },
        (ColumnType::UserDefinedType(d), Val::Udt(_, _, s)) => match field_bytes(
            d.field_types@,
            s,
            0,
        ) {
            Ok(bytes) => checked_sized(bytes),
            Err(e) => Err(e),
        },
        _ => Err(CodecError::Unsupported),
    }
}

/// Appends data behind the lower 32 bits of its length.
fn put_data(buf: &mut BytesMut, data: &[u8])
    ensures
        mut_contents(*final(buf)) == mut_contents(*old(buf)) + sized(data@),
{
    put_u32(buf, low_u32(data.len()));
    put_slice(buf, data);
    assert(mut_contents(*buf) =~= mut_contents(*old(buf)) + sized(data@));
}

/// Appends data behind its length, if the length fits.
fn put_checked(buf: &mut BytesMut, data: &[u8]) -> (r: Result<(), CodecError>)
    ensures
        wrote(checked_sized(data@), r, mut_contents(*old(buf)), mut_contents(*final(buf))),
{
    if data.len() > 0x7FFF_FFFF {
        return Err(CodecError::TooLong(Limit::Length));
    }
    put_data(buf, data);
    Ok(())
}

/// Appends a value of four bytes.
fn put_word(buf: &mut BytesMut, n: u32)
    ensures
        mut_contents(*final(buf)) == mut_contents(*old(buf)) + sized(be4(n as int)),
{
    put_i32(buf, 4);
    put_u32(buf, n);
    assert(mut_contents(*buf) =~= mut_contents(*old(buf)) + sized(be4(n as int)));
}

/// Appends a value of four signed bytes.
fn put_int(buf: &mut BytesMut, n: i32)
    ensures
        mut_contents(*final(buf)) == mut_contents(*old(buf)) + sized(be4(n as int)),
{
    put_i32(buf, 4);
    put_i32(buf, n);
    assert(mut_contents(*buf) =~= mut_contents(*old(buf)) + sized(be4(n as int)));
}

/// Appends a value of eight signed bytes.
fn put_long(buf: &mut BytesMut, n: i64)
    ensures
        mut_contents(*final(buf)) == mut_contents(*old(buf)) + sized(be8(n as int)),
{
    put_i32(buf, 8);
    put_i64(buf, n);
    assert(mut_contents(*buf) =~= mut_contents(*old(buf)) + sized(be8(n as int)));
}

/// Appends a value of eight bytes.
fn put_double_word(buf: &mut BytesMut, n: u64)
    ensures
        mut_contents(*final(buf)) == mut_contents(*old(buf)) + sized(be8(n as int)),
{
    put_i32(buf, 8);
    put_u64(buf, n);
    assert(mut_contents(*buf) =~= mut_contents(*old(buf)) + sized(be8(n as int)));
}

/// Appends a boolean.
fn put_bool(buf: &mut BytesMut, b: bool)
    ensures
        mut_contents(*final(buf)) == mut_contents(*old(buf)) + sized(
            seq![if b { 1u8 } else { 0u8 }],
        ),
{
    put_i32(buf, 1);
    put_u8(
        buf,
        if b {
            1
        } else {
            0
        },
    );
    assert(mut_contents(*buf) =~= mut_contents(*old(buf)) + sized(
        seq![if b { 1u8 } else { 0u8 }],
    ));
}

/// Appends the floats of a vector.
fn put_floats(buf: &mut BytesMut, elements: &Vec<CqlValue>) -> (r: Result<(), CodecError>)
    ensures
        wrote(float_bytes(vals(elements@)), r, mut_contents(*old(buf)), mut_contents(*final(buf))),
{
    let ghost s = vals(elements@);
    let ghost start = mut_contents(*buf);
    let ghost mut done = Seq::<u8>::empty();
    let mut i: usize = 0;
    assert(s.skip(0) =~= s);
    proof {
        lemma_after(done, Seq::empty(), float_bytes(s));
    }
    while i < elements.len()
        invariant
            i <= elements.len(),
            s == vals(elements@),
            start == mut_contents(*old(buf)),
            mut_contents(*buf) =~= start + done,
            float_bytes(s) == after(done, float_bytes(s.skip(i as int))),
        decreases elements.len() - i,
    {
        let ghost rest = s.skip(i as int);
        assert(rest[0] == elements@[i as int]@);
        assert(rest.skip(1) =~= s.skip(i + 1));
        match &elements[i] {
            CqlValue::Float(bits) => {
                put_u32(buf, *bits);
                proof {
                    lemma_after(done, be4(*bits as int), float_bytes(s.skip(i + 1)));
                    done = done + be4(*bits as int);
                }
            },
            _ => {
                return Err(CodecError::VectorElement);
            },
        }
        i = i + 1;
    }
    assert(s.skip(i as int) =~= Seq::empty());
    proof {
        lemma_after(done, Seq::empty(), float_bytes(s));
    }
    Ok(())
}

/// Appends items of one type.
fn encode_all(elem_type: &ColumnType, elements: &Vec<CqlValue>, buf: &mut BytesMut) -> (r: Result<
    (),
    CodecError,
>)
    ensures
        wrote(
            all_element_bytes(*elem_type, vals(elements@)),
            r,
            mut_contents(*old(buf)),
            mut_contents(*final(buf)),
        ),
    decreases elem_type, 2int,
{
    let ghost s = vals(elements@);
    let ghost start = mut_contents(*buf);
    let ghost mut done = Seq::<u8>::empty();
    let mut i: usize = 0;
    assert(s.skip(0) =~= s);
    proof {
        lemma_after(done, Seq::empty(), all_element_bytes(*elem_type, s));
    }
    while i < elements.len()
        invariant
            i <= elements.len(),
            s == vals(elements@),
            start == mut_contents(*old(buf)),
            mut_contents(*buf) =~= start + done,
            all_element_bytes(*elem_type, s) == after(
                done,
                all_element_bytes(*elem_type, s.skip(i as int)),
            ),
        decreases elements.len() - i,
    {
        let ghost rest = s.skip(i as int);
        assert(rest[0] == elements@[i as int]@);
        assert(rest.skip(1) =~= s.skip(i + 1));
        if let Err(e) = encode_element(elem_type, &elements[i], buf) {
            return Err(e);
        }
        proof {
            let more = element_bytes(*elem_type, rest[0])->Ok_0;
            lemma_after(done, more, all_element_bytes(*elem_type, s.skip(i + 1)));
            done = done + more;
        }
        i = i + 1;
    }
    assert(s.skip(i as int) =~= Seq::empty());
    proof {
        lemma_after(done, Seq::empty(), all_element_bytes(*elem_type, s));
    }
    Ok(())
}

/// Appends the entries of a map.
fn encode_entries(
    map_type: &ColumnType,
    entries: &Vec<(CqlValue, CqlValue)>,
    buf: &mut BytesMut,
) -> (r: Result<(), CodecError>)
    requires
        map_type is MapOf,
    ensures
        wrote(
            all_entry_bytes(*map_type, entry_vals(entries@)),
            r,
            mut_contents(*old(buf)),
            mut_contents(*final(buf)),
        ),
    decreases map_type, 0int,
{
    let ghost s = entry_vals(entries@);
    let ghost start = mut_contents(*buf);
    let ghost mut done = Seq::<u8>::empty();
    let mut i: usize = 0;
    assert(s.skip(0) =~= s);
    proof {
        lemma_after(done, Seq::empty(), all_entry_bytes(*map_type, s));
    }
    if let ColumnType::MapOf(key_type, value_type) = map_type {
        while i < entries.len()
            invariant
                i <= entries.len(),
                s == entry_vals(entries@),
                *map_type == ColumnType::MapOf(*key_type, *value_type),
                start == mut_contents(*old(buf)),
                mut_contents(*buf) =~= start + done,
                all_entry_bytes(*map_type, s) == after(
                    done,
                    all_entry_bytes(*map_type, s.skip(i as int)),
                ),
            decreases entries.len() - i,
        {
            let ghost rest = s.skip(i as int);
            assert(rest[0] == (entries@[i as int].0@, entries@[i as int].1@));
            assert(rest.skip(1) =~= s.skip(i + 1));
            if let Err(e) = encode_element(key_type, &entries[i].0, buf) {
                return Err(e);
            }
            if let Err(e) = encode_element(value_type, &entries[i].1, buf) {
                return Err(e);
            }
            proof {
                let more = element_bytes(**key_type, rest[0].0)->Ok_0 + element_bytes(
                    **value_type,
                    rest[0].1,
                )->Ok_0;
                lemma_after(done, more, all_entry_bytes(*map_type, s.skip(i + 1)));
                done = done + more;
            }
            i = i + 1;
        }
        assert(s.skip(i as int) =~= Seq::empty());
        proof {
            lemma_after(done, Seq::empty(), all_entry_bytes(*map_type, s));
        }
    }
    Ok(())
}

/// Appends an item that may be null.
fn encode_opt_element(t: &ColumnType, v: &Option<CqlValue>, buf: &mut BytesMut) -> (r: Result<
    (),
    CodecError,
>)
    ensures
        wrote(
            opt_element_bytes(*t, opt_val(*v)),
            r,
            mut_contents(*old(buf)),
            mut_contents(*final(buf)),
        ),
    decreases t, 3int,
{
    match v {
        Some(v) => encode_element(t, v, buf),
        None => {
            put_i32(buf, -1);
            Ok(())
        },
    }
}

/// Appends the fields of a user-defined type, matched by position.
fn encode_fields(
    types: &Vec<(String, ColumnType)>,
    fields: &Vec<(String, Option<CqlValue>)>,
    buf: &mut BytesMut,
) -> (r: Result<(), CodecError>)
    ensures
        wrote(
            field_bytes(types@, field_vals(fields@), 0),
            r,
            mut_contents(*old(buf)),
            mut_contents(*final(buf)),
        ),
    decreases types, 0int,
{
    let ghost s = field_vals(fields@);
    let ghost start = mut_contents(*buf);
    let ghost mut done = Seq::<u8>::empty();
    let mut k: usize = 0;
    proof {
        lemma_after(done, Seq::empty(), field_bytes(types@, s, 0));
    }
    while k < types.len() && k < fields.len()
        invariant
            k <= types@.len(),
            k <= fields@.len(),
            s == field_vals(fields@),
            start == mut_contents(*old(buf)),
            mut_contents(*buf) =~= start + done,
            field_bytes(types@, s, 0) == after(done, field_bytes(types@, s, k as nat)),
        decreases types@.len() - k,
    {
        assert(s[k as int].1 == opt_val(fields@[k as int].1));
        proof {
            assert(decreases_to!(types => types@[k as int]));
        }
        if let Err(e) = encode_opt_element(&types[k].1, &fields[k].1, buf) {
            return Err(e);
        }
        proof {
            let more = opt_element_bytes(types@[k as int].1, s[k as int].1)->Ok_0;
            lemma_after(done, more, field_bytes(types@, s, (k + 1) as nat));
            done = done + more;
        }
        k = k + 1;
    }
    proof {
        lemma_after(done, Seq::empty(), field_bytes(types@, s, 0));
    }
    Ok(())
}

/// Appends an item of a collection.
pub fn encode_element(elem_type: &ColumnType, elem: &CqlValue, buf: &mut BytesMut) -> (r: Result<
    (),
    CodecError,
>)
    ensures
        wrote(
            element_bytes(*elem_type, elem@),
            r,
            mut_contents(*old(buf)),
            mut_contents(*final(buf)),
        ),
    decreases elem_type, 1int,
{
    match (elem_type, elem) {
        (ColumnType::Native(NativeType::Int), CqlValue::Int(v)) => put_int(buf, *v),
        (ColumnType::Native(NativeType::BigInt), CqlValue::BigInt(v)) => put_long(buf, *v),
        (ColumnType::Native(NativeType::Text), CqlValue::Text(v)) => put_data(
            buf,
            v.as_str().as_bytes(),
        ),
        (ColumnType::Native(NativeType::Float), CqlValue::Float(v)) => put_word(buf, *v),
        (ColumnType::Native(NativeType::Double), CqlValue::Double(v)) => put_double_word(buf, *v),
        (ColumnType::Native(NativeType::Boolean), CqlValue::Boolean(v)) => put_bool(buf, *v),
        (ColumnType::Vector { dimensions, .. }, CqlValue::Vector(elements)) => {
            put_i32(buf, *dimensions as i32 * 4);
            let put: Result<(), CodecError> = put_floats(buf, elements);
            proof {
                let start = mut_contents(*old(buf));
                if let Ok(f) = float_bytes(vals(elements@)) {
                    assert(start + be4(*dimensions * 4) + f =~= start + (be4(*dimensions * 4) + f));
                }
            }
            return put;
        },
        (ColumnType::List(inner), CqlValue::List(elements)) => {
            return encode_counted(inner, elements, buf);
        },
        (ColumnType::SetOf(inner), CqlValue::SetOf(elements)) => {
            return encode_counted(inner, elements, buf);
        },
        (ColumnType::MapOf(_, _), CqlValue::MapOf(entries)) => {
            let n: usize = entries.len();
            if n > 0x7FFF_FFFF {
                return Err(CodecError::TooLong(Limit::Elements));
            }
            let mut inner: BytesMut = new_buffer();
            put_i32(&mut inner, n as i32);
            if let Err(e) = encode_entries(elem_type, entries, &mut inner) {
                return Err(e);
            }
            put_data(buf, mut_slice(&inner));
            assert(mut_contents(inner) =~= be4(n as int) + all_entry_bytes(
                *elem_type,
                entry_vals(entries@),
            )->Ok_0);
        },
        (
            ColumnType::UserDefinedType(definition),
            CqlValue::UserDefinedType { fields, .. },
        ) => {
            let mut inner: BytesMut = new_buffer();
            if let Err(e) = encode_fields(&definition.field_types, fields, &mut inner) {
                return Err(e);
            }
            put_data(buf, mut_slice(&inner));
            assert(mut_contents(inner) =~= field_bytes(
                definition.field_types@,
                field_vals(fields@),
                0,
            )->Ok_0);
        },
        _ => put_i32(buf, -1),
    }
    Ok(())
}

/// Appends items behind their number, all behind their length.
fn encode_counted(inner_type: &ColumnType, elements: &Vec<CqlValue>, buf: &mut BytesMut) -> (r:
    Result<(), CodecError>)
    ensures
        wrote(
            counted(vals(elements@).len(), all_element_bytes(*inner_type, vals(elements@))),
            r,
            mut_contents(*old(buf)),
            mut_contents(*final(buf)),
        ),
    decreases inner_type, 4int,
{
    let n: usize = elements.len();
    if n > 0x7FFF_FFFF {
        return Err(CodecError::TooLong(Limit::Elements));
    }
    let mut inner: BytesMut = new_buffer();
    put_i32(&mut inner, n as i32);
    if let Err(e) = encode_all(inner_type, elements, &mut inner) {
        return Err(e);
    }
    put_data(buf, mut_slice(&inner));
    assert(mut_contents(inner) =~= be4(n as int) + all_element_bytes(
        *inner_type,
        vals(elements@),
    )->Ok_0);
    Ok(())
}

/// Appends an element of the list in a list column.
fn encode_list_element(elem_type: &ColumnType, elem: &CqlValue, buf: &mut BytesMut) -> (r: Result<
    (),
    CodecError,
>)
    ensures
        wrote(
            list_element_bytes(*elem_type, elem@),
            r,
            mut_contents(*old(buf)),
            mut_contents(*final(buf)),
        ),
{
    match (elem_type, elem) {
        (ColumnType::Vector { .. }, CqlValue::Vector(_))
        | (ColumnType::Native(NativeType::Float), CqlValue::Float(_))
        | (ColumnType::Native(NativeType::Int), CqlValue::Int(_))
        | (ColumnType::Native(NativeType::BigInt), CqlValue::BigInt(_))
        | (ColumnType::Native(NativeType::Text), CqlValue::Text(_)) => encode_element(
            elem_type,
            elem,
            buf,
        ),
        _ => {
            put_i32(buf, -1);
            Ok(())
        },
    }
}

/// Appends the elements of the list in a list column.
fn encode_list_elements(elem_type: &ColumnType, elements: &Vec<CqlValue>, buf: &mut BytesMut) -> (r:
    Result<(), CodecError>)
    ensures
        wrote(
            all_list_element_bytes(*elem_type, vals(elements@)),
            r,
            mut_contents(*old(buf)),
            mut_contents(*final(buf)),
        ),
{
    let ghost s = vals(elements@);
    let ghost start = mut_contents(*buf);
    let ghost mut done = Seq::<u8>::empty();
    let mut i: usize = 0;
    assert(s.skip(0) =~= s);
    proof {
        lemma_after(done, Seq::empty(), all_list_element_bytes(*elem_type, s));
    }
    while i < elements.len()
        invariant
            i <= elements.len(),
            s == vals(elements@),
            start == mut_contents(*old(buf)),
            mut_contents(*buf) =~= start + done,
            all_list_element_bytes(*elem_type, s) == after(
                done,
                all_list_element_bytes(*elem_type, s.skip(i as int)),
            ),
        decreases elements.len() - i,
    {
        let ghost rest = s.skip(i as int);
        assert(rest[0] == elements@[i as int]@);
        assert(rest.skip(1) =~= s.skip(i + 1));
        if let Err(e) = encode_list_element(elem_type, &elements[i], buf) {
            return Err(e);
        }
        proof {
            let more = list_element_bytes(*elem_type, rest[0])->Ok_0;
            lemma_after(done, more, all_list_element_bytes(*elem_type, s.skip(i + 1)));
            done = done + more;
        }
        i = i + 1;
    }
    assert(s.skip(i as int) =~= Seq::empty());
    proof {
        lemma_after(done, Seq::empty(), all_list_element_bytes(*elem_type, s));
    }
    Ok(())
}

/// Appends the elements of a tuple.
fn encode_tuple(types: &Vec<ColumnType>, elements: &Vec<Option<CqlValue>>, buf: &mut BytesMut) -> (r:
    Result<(), CodecError>)
    ensures
        wrote(
            tuple_bytes(types@, opt_vals(elements@), 0),
            r,
            mut_contents(*old(buf)),
            mut_contents(*final(buf)),
        ),
{
    let ghost s = opt_vals(elements@);
    let ghost start = mut_contents(*buf);
    let ghost mut done = Seq::<u8>::empty();
    let mut k: usize = 0;
    proof {
        lemma_after(done, Seq::empty(), tuple_bytes(types@, s, 0));
    }
    while k < types.len() && k < elements.len()
        invariant
            k <= types@.len(),
            k <= elements@.len(),
            s == opt_vals(elements@),
            start == mut_contents(*old(buf)),
            mut_contents(*buf) =~= start + done,
            tuple_bytes(types@, s, 0) == after(done, tuple_bytes(types@, s, k as nat)),
        decreases types@.len() - k,
    {
        assert(s[k as int] == opt_val(elements@[k as int]));
        if let Err(e) = encode_opt_element(&types[k], &elements[k], buf) {
            return Err(e);
        }
        proof {
            let more = opt_element_bytes(types@[k as int], s[k as int])->Ok_0;
            lemma_after(done, more, tuple_bytes(types@, s, (k + 1) as nat));
            done = done + more;
        }
        k = k + 1;
    }
    proof {
        lemma_after(done, Seq::empty(), tuple_bytes(types@, s, 0));
    }
    Ok(())
}

/// Appends the items of a list, set or map column, behind their number.
fn encode_collection(column_type: &ColumnType, value: &CqlValue, out: &mut BytesMut) -> (r: Result<
    (),
    CodecError,
>)
    requires
        (column_type is List && value is List) || (column_type is SetOf && value is SetOf) || (
        column_type is MapOf && value is MapOf),
    ensures
        wrote(
            column_bytes(*column_type, value@),
            r,
            mut_contents(*old(out)),
            mut_contents(*final(out)),
        ),
{
    let mut inner: BytesMut = new_buffer();
    match (column_type, value) {
        (ColumnType::List(elem_type), CqlValue::List(elements)) => {
            let n: usize = elements.len();
            if n > 0x7FFF_FFFF {
                return Err(CodecError::TooLong(Limit::ListElements));
            }
            put_i32(&mut inner, n as i32);
            if let Err(e) = encode_list_elements(elem_type, elements, &mut inner) {
                return Err(e);
            }
            assert(mut_contents(inner) =~= be4(n as int) + all_list_element_bytes(
                **elem_type,
                vals(elements@),
            )->Ok_0);
        },
        (ColumnType::SetOf(elem_type), CqlValue::SetOf(elements)) => {
            let n: usize = elements.len();
            if n > 0x7FFF_FFFF {
                return Err(CodecError::TooLong(Limit::SetElements));
            }
            put_i32(&mut inner, n as i32);
            if let Err(e) = encode_all(elem_type, elements, &mut inner) {
                return Err(e);
            }
            assert(mut_contents(inner) =~= be4(n as int) + all_element_bytes(
                **elem_type,
                vals(elements@),
            )->Ok_0);
        },
        (ColumnType::MapOf(_, _), CqlValue::MapOf(entries)) => {
            let n: usize = entries.len();
            if n > 0x7FFF_FFFF {
                return Err(CodecError::TooLong(Limit::MapEntries));
            }
            put_i32(&mut inner, n as i32);
            if let Err(e) = encode_entries(column_type, entries, &mut inner) {
                return Err(e);
            }
            assert(mut_contents(inner) =~= be4(n as int) + all_entry_bytes(
                *column_type,
                entry_vals(entries@),
            )->Ok_0);
        },
        _ => {},
    }
    put_checked(out, mut_slice(&inner))
}

/// Appends the value of a column of a scalar type, behind its length.
fn encode_native(native: NativeType, value: &CqlValue, out: &mut BytesMut) -> (r: Result<
    (),
    CodecError,
>)
    ensures
        wrote(
            column_bytes(ColumnType::Native(native), value@),
            r,
            mut_contents(*old(out)),
            mut_contents(*final(out)),
        ),
{
    match (native, value) {
        (NativeType::Int, CqlValue::Int(v)) => put_int(out, *v),
        (NativeType::Text, CqlValue::Text(v)) => {
            return put_checked(out, v.as_str().as_bytes());
        },
        (NativeType::Ascii, CqlValue::Ascii(v)) => {
            return put_checked(out, v.as_str().as_bytes());
        },
        (NativeType::BigInt, CqlValue::BigInt(v)) => put_long(out, *v),
        (NativeType::Boolean, CqlValue::Boolean(v)) => put_bool(out, *v),
        (NativeType::Float, CqlValue::Float(v)) => put_word(out, *v),
        (NativeType::Double, CqlValue::Double(v)) => put_double_word(out, *v),
        (NativeType::Uuid, CqlValue::Uuid(v)) => put_data(out, v.as_slice()),
        (NativeType::Timeuuid, CqlValue::Timeuuid(v)) => put_data(out, v.as_slice()),
        (NativeType::TinyInt, CqlValue::TinyInt(v)) => {
            put_i32(out, 1);
            put_i8(out, *v);
            assert(mut_contents(*out) =~= mut_contents(*old(out)) + sized(
                seq![(*v as int % 0x100) as u8],
            ));
        },
        (NativeType::SmallInt, CqlValue::SmallInt(v)) => {
            put_i32(out, 2);
            put_i16(out, *v);
            assert(mut_contents(*out) =~= mut_contents(*old(out)) + sized(be2(*v as int)));
        },
        (NativeType::Blob, CqlValue::Blob(v)) => {
            return put_checked(out, v.as_slice());
        },
        (NativeType::Date, CqlValue::Date(v)) => put_word(out, *v),
        (NativeType::Time, CqlValue::Time(v)) => put_long(out, *v),
        (NativeType::Timestamp, CqlValue::Timestamp(v)) => put_long(out, *v),
        (NativeType::Counter, CqlValue::Counter(v)) => put_long(out, *v),
        (NativeType::Inet, CqlValue::Inet(v)) => match v {
            IpAddr::V4(octets) => put_data(out, octets.as_slice()),
            IpAddr::V6(octets) => put_data(out, octets.as_slice()),
        },
        (NativeType::Varint, CqlValue::Varint(v)) => {
            return put_checked(out, v.as_slice());
        },
        (NativeType::Decimal, CqlValue::Decimal { mantissa, scale }) => {
            let mut data: BytesMut = new_buffer();
            put_i32(&mut data, *scale);
            put_slice(&mut data, mantissa.as_slice());
            assert(mut_contents(data) =~= be4(*scale as int) + mantissa@);
            return put_checked(out, mut_slice(&data));
        },
        (NativeType::Duration, CqlValue::Duration(v)) => {
            let mut data: Vec<u8> = Vec::new();
            encode_vint(v.months as i64, &mut data);
            encode_vint(v.days as i64, &mut data);
            encode_vint(v.nanoseconds, &mut data);
            assert(data@ =~= duration_bytes(*v));
            return put_checked(out, data.as_slice());
        },
        _ => {
            return Err(CodecError::Unsupported);
        },
    }
    Ok(())
}

/// Appends the value of a column, behind its length.
pub fn encode_value(column_type: &ColumnType, value: &CqlValue, out: &mut BytesMut) -> (r: Result<
    (),
    CodecError,
>)
    ensures
        wrote(
            column_bytes(*column_type, value@),
            r,
            mut_contents(*old(out)),
            mut_contents(*final(out)),
        ),
{
    match (column_type, value) {
        (ColumnType::Native(native), _) => encode_native(*native, value, out),
        (ColumnType::Vector { dimensions, .. }, CqlValue::Vector(elements)) => {
            let expected: usize = *dimensions as usize;
            let len: usize = elements.len();
            if len != expected {
                return Err(CodecError::VectorDimension(expected, len));
            }
            put_i32(out, *dimensions as i32 * 4);
            let put: Result<(), CodecError> = put_floats(out, elements);
            proof {
                let start = mut_contents(*old(out));
                if let Ok(f) = float_bytes(vals(elements@)) {
                    assert(start + be4(*dimensions * 4) + f =~= start + (be4(*dimensions * 4) + f));
                }
            }
            put
        },
        (ColumnType::List(_), CqlValue::List(_))
        | (ColumnType::SetOf(_), CqlValue::SetOf(_))
        | (ColumnType::MapOf(_, _), CqlValue::MapOf(_)) => encode_collection(
            column_type,
            value,
            out,
        ),
        (ColumnType::Tuple(types), CqlValue::Tuple(elements)) => {
            let mut inner: BytesMut = new_buffer();
            if let Err(e) = encode_tuple(types, elements, &mut inner) {
                return Err(e);
            }
            assert(mut_contents(inner) =~= tuple_bytes(types@, opt_vals(elements@), 0)->Ok_0);
            put_checked(out, mut_slice(&inner))
        },
        (
            ColumnType::UserDefinedType(definition),
            CqlValue::UserDefinedType { fields, .. },
        ) => {
            let mut inner: BytesMut = new_buffer();
            if let Err(e) = encode_fields(&definition.field_types, fields, &mut inner) {
                return Err(e);
            }
            assert(mut_contents(inner) =~= field_bytes(
                definition.field_types@,
                field_vals(fields@),
                0,
            )->Ok_0);
            put_checked(out, mut_slice(&inner))
        },
        _ => Err(CodecError::Unsupported),
    }
}

} // verus!
