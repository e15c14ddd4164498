//! Encoding of CQL values for the driver adapter.

use crate::error::{after, lemma_after, wrote, Coded, CodecError, Limit};
use crate::value::{
    entry_vals, field_vals, narrow, narrow_spec, opt_val, opt_vals, vals, CqlValue, IpAddr, Val,
};
use crate::wire::{
    be2, be4, be8, copy_tail_within, mut_contents, mut_len, overwrite, put_i16, put_i32,
    put_i64, put_i8, put_slice, put_u16, put_u32, put_u64, put_u8, truncate,
};
use bytes::BytesMut;
use vstd::prelude::*;
use vstd::string::*;
use vstd::utf8::encode_utf8;

verus! {

broadcast use crate::wire::group_be;

pub const ASCII: u16 = 0x0001;
pub const BIGINT: u16 = 0x0002;
pub const BLOB: u16 = 0x0003;
pub const BOOLEAN: u16 = 0x0004;
pub const COUNTER: u16 = 0x0005;
pub const DOUBLE: u16 = 0x0007;
pub const FLOAT: u16 = 0x0008;
pub const INT: u16 = 0x0009;
pub const TIMESTAMP: u16 = 0x000B;
pub const UUID: u16 = 0x000C;
pub const TEXT: u16 = 0x000D;
pub const TIMEUUID: u16 = 0x000F;
pub const INET: u16 = 0x0010;
pub const DATE: u16 = 0x0011;
pub const TIME: u16 = 0x0012;
pub const SMALLINT: u16 = 0x0013;
pub const TINYINT: u16 = 0x0014;
pub const LIST: u16 = 0x0020;
pub const MAP: u16 = 0x0021;
pub const SET: u16 = 0x0022;
pub const VECTOR: u16 = 0x0030;
pub const TUPLE: u16 = 0x0031;
/// A list of float vectors, with no length in front of each vector.
pub const PACKED_FLOAT_VECTOR_LIST: u16 = 0x0032;
pub const UDT: u16 = 0x0040;

/// The largest length that a signed 32-bit field holds.
pub open spec fn max_len() -> int {
    0x7FFF_FFFF
}

/// Data behind its own length.
pub open spec fn sized(data: Seq<u8>) -> Seq<u8> {
    be4(data.len() as int) + data
}

/// Data behind its own length, refused where the length does not fit.
pub open spec fn sized_or(data: Seq<u8>, what: Limit) -> Coded {
    if data.len() > max_len() {
        Err(CodecError::TooLong(what))
    } else {
        Ok(sized(data))
    }
}

/// A list starts with a vector that is empty or starts with a float: it is sent packed.
pub open spec fn is_packed(elements: Seq<Val>) -> bool {
    elements.len() > 0 && match elements[0] {
        Val::Vector(first) => first.len() == 0 || first[0] is Float || first[0] is Double,
        _ => false,
    }
}

/// The type code that is sent in front of a value.
pub open spec fn code(v: Val) -> u16 {
    match v {
        Val::TinyInt(_) => TINYINT,
        Val::SmallInt(_) => SMALLINT,
        Val::Int(_) => INT,
        Val::BigInt(_) => BIGINT,
        Val::Text(_) => TEXT,
        Val::Ascii(_) => ASCII,
        Val::Boolean(_) => BOOLEAN,
        Val::Float(_) => FLOAT,
        Val::Double(_) => DOUBLE,
        Val::Uuid(_) => UUID,
        Val::Timeuuid(_) => TIMEUUID,
        Val::Timestamp(_) => TIMESTAMP,
        Val::Date(_) => DATE,
        Val::Time(_) => TIME,
        Val::Inet(_) => INET,
        Val::Counter(_) => COUNTER,
        Val::Vector(_) => VECTOR,
        Val::List(elements) => if is_packed(elements) {
            PACKED_FLOAT_VECTOR_LIST
        } else {
            LIST
        },
        Val::SetOf(_) => SET,
        Val::MapOf(_) => MAP,
        Val::Tuple(_) => TUPLE,
        Val::Udt(_, _, _) => UDT,
        _ => BLOB,
    }
}

/// The element type that a list announces, from its first element.
pub open spec fn list_subtype(elements: Seq<Val>) -> u16 {
    if elements.len() == 0 {
        BLOB
    } else {
        match elements[0] {
            Val::Vector(_) => VECTOR,
            Val::List(_) => LIST,
            Val::Float(_) | Val::Double(_) | Val::Int(_) | Val::BigInt(_) | Val::Text(_)
            | Val::SetOf(_) | Val::MapOf(_) | Val::Udt(_, _, _) => code(elements[0]),
            _ => BLOB,
        }
    }
}

/// The type that a set announces for its elements, and a map for its values, from the first of them.
pub open spec fn item_subtype(first: Val) -> u16 {
    match first {
        Val::List(_) => LIST,
        Val::Int(_) | Val::BigInt(_) | Val::Text(_) | Val::Float(_) | Val::Double(_)
        | Val::SetOf(_) | Val::MapOf(_) | Val::Udt(_, _, _) => code(first),
        _ => BLOB,
    }
}

/// The type that a map announces for its keys, from the first of them.
pub open spec fn key_subtype(first: Val) -> u16 {
    match first {
        Val::Int(_) | Val::BigInt(_) | Val::Text(_) => code(first),
        _ => BLOB,
    }
}

/// The type that a tuple announces for an element.
pub open spec fn tuple_subtype(element: Option<Val>) -> u16 {
    match element {
        Some(Val::List(_)) => LIST,
        Some(v) => match v {
            Val::Int(_) | Val::BigInt(_) | Val::Text(_) | Val::Boolean(_) | Val::Float(_)
            | Val::Double(_) | Val::MapOf(_) | Val::SetOf(_) => code(v),
            _ => BLOB,
        },
        None => BLOB,
    }
}

/// The type that a user-defined type announces for a field.
pub open spec fn field_subtype(field: Option<Val>) -> u16 {
    match field {
        Some(v) => match v {
            Val::Int(_) | Val::BigInt(_) | Val::Text(_) | Val::Boolean(_) | Val::Float(_)
            | Val::Double(_) | Val::Udt(_, _, _) => code(v),
            _ => BLOB,
        },
        None => BLOB,
    }
}

/// The bytes of the elements of a vector, one single-precision float each.
pub open spec fn floats(elements: Seq<Val>) -> Coded
    decreases elements.len(),
{
    if elements.len() == 0 {
        Ok(Seq::empty())
    } else {
        match elements[0] {
            Val::Float(bits) => after(be4(bits as int), floats(elements.skip(1))),
            Val::Double(bits) => after(be4(narrow_spec(bits)), floats(elements.skip(1))),
            _ => Err(CodecError::VectorElement),
        }
    }
}

/// The floats of all vectors of a packed list, one vector after the other.
pub open spec fn packed_floats(elements: Seq<Val>) -> Coded
    decreases elements.len(),
{
    if elements.len() == 0 {
        Ok(Seq::empty())
    } else {
        match elements[0] {
            Val::Vector(v) => match floats(v) {
                Ok(bytes) => after(bytes, packed_floats(elements.skip(1))),
                Err(e) => Err(e),
            },
            _ => Err(CodecError::NonVectorElement),
        }
    }
}

/// The types that a tuple announces for its elements.
pub open spec fn tuple_types(elements: Seq<Option<Val>>) -> Seq<u8>
    decreases elements.len(),
{
    if elements.len() == 0 {
        Seq::empty()
    } else {
        be2(tuple_subtype(elements[0]) as int) + tuple_types(elements.skip(1))
    }
}

/// The names and types that a user-defined type announces for its fields.
pub open spec fn udt_types(fields: Seq<(Seq<char>, Option<Val>)>) -> Coded
    decreases fields.len(),
{
    if fields.len() == 0 {
        Ok(Seq::empty())
    } else {
        let name = encode_utf8(fields[0].0);
        if name.len() > 0xFFFF {
            Err(CodecError::TooLong(Limit::FieldName))
        } else {
            after(
                be2(name.len() as int) + name + be2(field_subtype(fields[0].1) as int),
                udt_types(fields.skip(1)),
            )
        }
    }
}

/// What is sent for a value behind its type code: a length and the data.
pub open spec fn tail(v: Val) -> Coded
    decreases v, 0int,
{
    match v {
        Val::TinyInt(n) => Ok(sized(seq![(n as int % 0x100) as u8])),
        Val::SmallInt(n) => Ok(sized(be2(n as int))),
        Val::Int(n) => Ok(sized(be4(n as int))),
        Val::BigInt(n) => Ok(sized(be8(n as int))),
        Val::Text(s) => sized_or(encode_utf8(s), Limit::Text),
        Val::Ascii(s) => sized_or(encode_utf8(s), Limit::Ascii),
        Val::Boolean(b) => Ok(sized(seq![if b { 1u8 } else { 0u8 }])),
        Val::Float(bits) => Ok(sized(be4(bits as int))),
        Val::Double(bits) => Ok(sized(be8(bits as int))),
        Val::Uuid(b) => Ok(sized(b)),
        Val::Timeuuid(b) => Ok(sized(b)),
        Val::Blob(b) => sized_or(b, Limit::Blob),
        Val::Timestamp(n) => Ok(sized(be8(n as int))),
        Val::Date(n) => Ok(sized(be4(n as int))),
        Val::Time(n) => Ok(sized(be8(n as int))),
        Val::Inet(octets) => Ok(sized(octets)),
        Val::Counter(n) => Ok(sized(be8(n as int))),
        Val::Empty => Ok(be4(-1)),
        Val::Vector(elements) => if elements.len() > 0xFFFF {
            Err(CodecError::TooLong(Limit::VectorDimension))
        } else {
            match floats(elements) {
                Ok(bytes) => Ok(sized(be2(FLOAT as int) + be2(elements.len() as int) + bytes)),
                Err(e) => Err(e),
            }
        },
        Val::List(elements) => if is_packed(elements) {
            packed_tail(elements)
        } else {
            list_tail(elements)
        },
        Val::SetOf(elements) => if elements.len() > max_len() {
            Err(CodecError::TooLong(Limit::SetElements))
        } else {
            let subtype = if elements.len() == 0 { BLOB } else { item_subtype(elements[0]) };
            match tails(elements) {
                Ok(bytes) => sized_or(
                    be2(subtype as int) + be4(elements.len() as int) + bytes,
                    Limit::SetData,
                ),
                Err(e) => Err(e),
            }
        },
        Val::MapOf(entries) => if entries.len() > max_len() {
            Err(CodecError::TooLong(Limit::MapEntries))
        } else {
            let key = if entries.len() == 0 { BLOB } else { key_subtype(entries[0].0) };
            let value = if entries.len() == 0 { BLOB } else { item_subtype(entries[0].1) };
            match entry_tails(entries) {
                Ok(bytes) => sized_or(
                    be2(key as int) + be2(value as int) + be4(entries.len() as int) + bytes,
                    Limit::MapData,
                ),
                Err(e) => Err(e),
            }
        },
        Val::Tuple(elements) => if elements.len() > 0xFFFF {
            Err(CodecError::TooLong(Limit::TupleElements))
        } else {
            match opt_tails(elements) {
                Ok(bytes) => sized_or(
                    be2(elements.len() as int) + tuple_types(elements) + bytes,
                    Limit::Tuple,
                ),
                Err(e) => Err(e),
            }
        },
        Val::Udt(_, _, fields) => if fields.len() > 0xFFFF {
            Err(CodecError::TooLong(Limit::UdtFields))
        } else {
            match udt_types(fields) {
                Ok(types) => match field_tails(fields) {
                    Ok(bytes) => sized_or(be2(fields.len() as int) + types + bytes, Limit::Udt),
                    Err(e) => Err(e),
                },
                Err(e) => Err(e),
            }
        },
        Val::Decimal(_, _) | Val::Duration(_) | Val::Varint(_) => Err(CodecError::Unsupported),
    }
}

/// A packed list: the number of vectors, the dimension of the first, and all floats.
pub open spec fn packed_tail(elements: Seq<Val>) -> Coded {
    let dimension = elements[0]->Vector_0.len();
    if 6 + elements.len() * dimension * 4 > max_len() {
        Err(CodecError::TooLong(Limit::PackedVectorList))
    } else {
        match packed_floats(elements) {
            Ok(bytes) => Ok(
                be4((6 + elements.len() * dimension * 4) as int) + be4(elements.len() as int) + be2(
                    dimension as int,
                ) + bytes,
            ),
            Err(e) => Err(e),
        }
    }
}

/// A list: the type that it announces, the number of elements, and each element.
pub open spec fn list_tail(elements: Seq<Val>) -> Coded
    decreases elements, 1int,
{
    let subtype = list_subtype(elements);
    let dimension = if subtype == VECTOR { elements[0]->Vector_0.len() } else { 0 };
    if dimension > 0xFFFF {
        Err(CodecError::TooLong(Limit::VectorDimension))
    } else if elements.len() > max_len() {
        Err(CodecError::TooLong(Limit::ListElements))
    } else {
        let vector = if subtype == VECTOR {
            be2(FLOAT as int) + be2(dimension as int)
        } else {
            Seq::empty()
        };
        match list_tails(elements) {
            Ok(bytes) => sized_or(
                be2(subtype as int) + vector + be4(elements.len() as int) + bytes,
                Limit::List,
            ),
            Err(e) => Err(e),
        }
    }
}

/// The elements of a list; a vector among them is sent as its bare floats.
pub open spec fn list_tails(elements: Seq<Val>) -> Coded
    decreases elements, 0int,
{
    if elements.len() == 0 {
        Ok(Seq::empty())
    } else {
        let first = match elements[0] {
            Val::Vector(v) => if v.len() * 4 > max_len() {
                Err(CodecError::TooLong(Limit::Vector))
            } else {
                after(be4((v.len() * 4) as int), floats(v))
            },
            v => tail(v),
        };
        match first {
            Ok(bytes) => after(bytes, list_tails(elements.skip(1))),
            Err(e) => Err(e),
        }
    }
}

/// The elements of a set.
pub open spec fn tails(elements: Seq<Val>) -> Coded
    decreases elements, 0int,
{
    if elements.len() == 0 {
        Ok(Seq::empty())
    } else {
        match tail(elements[0]) {
            Ok(bytes) => after(bytes, tails(elements.skip(1))),
            Err(e) => Err(e),
        }
    }
}

/// The entries of a map, each a key and a value.
pub open spec fn entry_tails(entries: Seq<(Val, Val)>) -> Coded
    decreases entries, 0int,
{
    if entries.len() == 0 {
        Ok(Seq::empty())
    } else {
        match tail(entries[0].0) {
            Ok(key) => match tail(entries[0].1) {
                Ok(value) => after(key + value, entry_tails(entries.skip(1))),
                Err(e) => Err(e),
            },
            Err(e) => Err(e),
        }
    }
}

/// What is sent for an optional value: a null is a length of -1.
pub open spec fn opt_tail(v: Option<Val>) -> Coded
    decreases v, 0int,
{
    match v {
        Some(x) => tail(x),
        None => Ok(be4(-1)),
    }
}

/// The elements of a tuple.
pub open spec fn opt_tails(elements: Seq<Option<Val>>) -> Coded
    decreases elements, 0int,
{
    if elements.len() == 0 {
        Ok(Seq::empty())
    } else {
        match opt_tail(elements[0]) {
            Ok(bytes) => after(bytes, opt_tails(elements.skip(1))),
            Err(e) => Err(e),
        }
    }
}

/// The field values of a user-defined type.
pub open spec fn field_tails(fields: Seq<(Seq<char>, Option<Val>)>) -> Coded
    decreases fields, 0int,
{
    if fields.len() == 0 {
        Ok(Seq::empty())
    } else {
        match opt_tail(fields[0].1) {
            Ok(bytes) => after(bytes, field_tails(fields.skip(1))),
            Err(e) => Err(e),
        }
    }
}

/// What is sent for a value: its type code, a length and the data.
pub open spec fn encoded(v: Val) -> Coded {
    match tail(v) {
        Ok(bytes) => Ok(be2(code(v) as int) + bytes),
        Err(e) => Err(e),
    }
}

/// The four big-endian bytes of a number.
fn be4_bytes(n: u32) -> (bytes: [u8; 4])
    ensures
        bytes@ == be4(n as int),
{
    proof {
        reveal(be4);
    }
    [(n / 0x100_0000) as u8, (n / 0x1_0000 % 0x100) as u8, (n / 0x100 % 0x100) as u8, (n % 0x100) as u8]
}

/// Appends data behind its length.
fn put_sized(buf: &mut BytesMut, data: &[u8], what: Limit) -> (r: Result<(), CodecError>)
    ensures
        wrote(sized_or(data@, what), r, mut_contents(*old(buf)), mut_contents(*final(buf))),
{
    let len: usize = data.len();
    if len > 0x7FFF_FFFF {
        return Err(CodecError::TooLong(what));
    }
    put_i32(buf, len as i32);
    put_slice(buf, data);
    assert(mut_contents(*buf) =~= mut_contents(*old(buf)) + sized(data@));
    Ok(())
}

/// Fills in the length of the data behind the four bytes at `pos`.
fn fill_length(buf: &mut BytesMut, pos: usize, what: Limit) -> (r: Result<(), CodecError>)
    requires
        pos + 4 <= mut_contents(*old(buf)).len(),
    ensures
        wrote(
            sized_or(mut_contents(*old(buf)).skip(pos + 4), what),
            r,
            mut_contents(*old(buf)).take(pos as int),
            mut_contents(*final(buf)),
        ),
{
    let len: usize = mut_len(buf) - pos - 4;
    if len > 0x7FFF_FFFF {
        return Err(CodecError::TooLong(what));
    }
    let bytes: [u8; 4] = be4_bytes(len as u32);
    overwrite(buf, pos, bytes.as_slice());
    assert(mut_contents(*buf) =~= mut_contents(*old(buf)).take(pos as int) + sized(
        mut_contents(*old(buf)).skip(pos + 4),
    ));
    Ok(())
}

/// Appends the elements of a vector as single-precision floats.
fn put_floats(buf: &mut BytesMut, elements: &Vec<CqlValue>) -> (r: Result<(), CodecError>)
    ensures
        wrote(floats(vals(elements@)), r, mut_contents(*old(buf)), mut_contents(*final(buf))),
{
    let ghost s = vals(elements@);
    let ghost start = mut_contents(*buf);
    let ghost mut done = Seq::<u8>::empty();
    let mut i: usize = 0;
    assert(s.skip(0) =~= s);
    proof {
        lemma_after(done, Seq::empty(), floats(s));
    }
    while i < elements.len()
        invariant
            i <= elements.len(),
            s == vals(elements@),
            start == mut_contents(*old(buf)),
            mut_contents(*buf) == start + done,
            floats(s) == after(done, floats(s.skip(i as int))),
        decreases elements.len() - i,
    {
        let ghost rest = s.skip(i as int);
        assert(rest[0] == elements@[i as int]@);
        assert(rest.skip(1) =~= s.skip(i + 1));
        let bits: u32 = match &elements[i] {
            CqlValue::Float(bits) => *bits,
            CqlValue::Double(bits) => narrow(*bits),
            _ => {
                return Err(CodecError::VectorElement);
            },
        };
        put_u32(buf, bits);
        proof {
            lemma_after(done, be4(bits as int), floats(s.skip(i + 1)));
            done = done + be4(bits as int);
            assert(mut_contents(*buf) =~= start + done);
        }
        i = i + 1;
    }
    assert(s.skip(i as int) =~= Seq::empty());
    proof {
        lemma_after(done, Seq::empty(), floats(s));
    }
    Ok(())
}

/// Appends a list of float vectors in the packed format.
fn encode_packed(elements: &Vec<CqlValue>, dimension: usize, buf: &mut BytesMut) -> (r: Result<
    (),
    CodecError,
>)
    requires
        is_packed(vals(elements@)),
        dimension == vals(elements@)[0]->Vector_0.len(),
    ensures
        wrote(
            after(be2(PACKED_FLOAT_VECTOR_LIST as int), packed_tail(vals(elements@))),
            r,
            mut_contents(*old(buf)),
            mut_contents(*final(buf)),
        ),
{
    let ghost s = vals(elements@);
    let ghost start = mut_contents(*buf);
    let n_elements: usize = elements.len();
    let cells: usize = match n_elements.checked_mul(dimension) {
        Some(cells) => cells,
        None => {
            return Err(CodecError::TooLong(Limit::PackedVectorList));
        },
    };
    if cells > 0x1FFF_FFFE {
        return Err(CodecError::TooLong(Limit::PackedVectorList));
    }
    put_u16(buf, PACKED_FLOAT_VECTOR_LIST);
    put_i32(buf, (6 + cells * 4) as i32);
    assert(n_elements <= cells || dimension == 0) by (nonlinear_arith)
        requires
            cells == n_elements * dimension,
    ;
    put_u32(buf, crate::wire::low_u32(n_elements));
    put_u16(buf, crate::wire::low_u16(dimension));
    let ghost head = be2(PACKED_FLOAT_VECTOR_LIST as int) + (be4((6 + cells * 4) as int) + be4(
        n_elements as int,
    ) + be2(dimension as int));
    assert(mut_contents(*buf) =~= start + head);
    let ghost mut done = Seq::<u8>::empty();
    let mut i: usize = 0;
    assert(s.skip(0) =~= s);
    proof {
        lemma_after(done, Seq::empty(), packed_floats(s));
    }
    while i < elements.len()
        invariant
            i <= elements.len(),
            s == vals(elements@),
            mut_contents(*buf) == start + head + done,
            packed_floats(s) == after(done, packed_floats(s.skip(i as int))),
            start == mut_contents(*old(buf)),
            is_packed(s),
            dimension == s[0]->Vector_0.len(),
            cells == s.len() * dimension,
            cells <= 0x1FFF_FFFE,
        decreases elements.len() - i,
    {
        let ghost rest = s.skip(i as int);
        let ghost before = mut_contents(*buf);
        assert(rest[0] == elements@[i as int]@);
        assert(rest.skip(1) =~= s.skip(i + 1));
        match &elements[i] {
            CqlValue::Vector(vec_elements) => {
                let put: Result<(), CodecError> = put_floats(buf, vec_elements);
                if let Err(e) = put {
                    assert(start.is_prefix_of(mut_contents(*buf)));
                    return Err(e);
                }
                proof {
                    let more = floats(vals(vec_elements@))->Ok_0;
                    lemma_after(done, more, packed_floats(s.skip(i + 1)));
                    done = done + more;
                    assert(mut_contents(*buf) =~= start + head + done);
                }
            },
            _ => {
                return Err(CodecError::NonVectorElement);
            },
        }
        i = i + 1;
    }
    assert(s.skip(i as int) =~= Seq::empty());
    proof {
        lemma_after(done, Seq::empty(), packed_floats(s));
        assert(start + head + done =~= start + (head + done));
        assert(head + done =~= be2(PACKED_FLOAT_VECTOR_LIST as int) + packed_tail(s)->Ok_0);
    }
    Ok(())
}

/// Appends what is sent for a value behind its type code.
pub fn encode_stripped(value: &CqlValue, buf: &mut BytesMut) -> (r: Result<(), CodecError>)
    ensures
        wrote(tail(value@), r, mut_contents(*old(buf)), mut_contents(*final(buf))),
    decreases value, 2int,
{
    let ghost before = mut_contents(*buf);
    let start: usize = mut_len(buf);
    let put: Result<(), CodecError> = encode_value(value, buf);
    if let Err(e) = put {
        return Err(e);
    }
    proof {
        assert(mut_contents(*buf).len() >= start + 2);
    }
    let ghost whole = mut_contents(*buf);
    let end: usize = mut_len(buf);
    copy_tail_within(buf, start + 2, start);
    truncate(buf, end - 2);
    assert(mut_contents(*buf) =~= before + tail(value@)->Ok_0);
    Ok(())
}

/// The type that a list announces for its elements.
fn list_code(elements: &Vec<CqlValue>) -> (c: u16)
    ensures
        c == list_subtype(vals(elements@)),
{
    if elements.len() == 0 {
        return BLOB;
    }
    assert(vals(elements@)[0] == elements@[0]@);
    match &elements[0] {
        CqlValue::Vector(_) => VECTOR,
        CqlValue::Float(_) => FLOAT,
        CqlValue::Double(_) => DOUBLE,
        CqlValue::Int(_) => INT,
        CqlValue::BigInt(_) => BIGINT,
        CqlValue::Text(_) => TEXT,
        CqlValue::List(_) => LIST,
        CqlValue::SetOf(_) => SET,
        CqlValue::MapOf(_) => MAP,
        CqlValue::UserDefinedType { .. } => UDT,
        _ => BLOB,
    }
}

/// The type that a set announces for its elements, and a map for its values.
fn item_code(first: &CqlValue) -> (c: u16)
    ensures
        c == item_subtype(first@),
{
    match first {
        CqlValue::Int(_) => INT,
        CqlValue::BigInt(_) => BIGINT,
        CqlValue::Text(_) => TEXT,
        CqlValue::Float(_) => FLOAT,
        CqlValue::Double(_) => DOUBLE,
        CqlValue::List(_) => LIST,
        CqlValue::SetOf(_) => SET,
        CqlValue::MapOf(_) => MAP,
        CqlValue::UserDefinedType { .. } => UDT,
        _ => BLOB,
    }
}

/// The type that a map announces for its keys.
fn key_code(first: &CqlValue) -> (c: u16)
    ensures
        c == key_subtype(first@),
{
    match first {
        CqlValue::Int(_) => INT,
        CqlValue::BigInt(_) => BIGINT,
        CqlValue::Text(_) => TEXT,
        _ => BLOB,
    }
}

/// The type that a tuple announces for an element.
fn tuple_code(element: &Option<CqlValue>) -> (c: u16)
    ensures
        c == tuple_subtype(opt_val(*element)),
{
    match element {
        Some(CqlValue::Int(_)) => INT,
        Some(CqlValue::BigInt(_)) => BIGINT,
        Some(CqlValue::Text(_)) => TEXT,
        Some(CqlValue::Boolean(_)) => BOOLEAN,
        Some(CqlValue::Float(_)) => FLOAT,
        Some(CqlValue::Double(_)) => DOUBLE,
        Some(CqlValue::List(_)) => LIST,
        Some(CqlValue::MapOf(_)) => MAP,
        Some(CqlValue::SetOf(_)) => SET,
        _ => BLOB,
    }
}

/// The type that a user-defined type announces for a field.
fn field_code(field: &Option<CqlValue>) -> (c: u16)
    ensures
        c == field_subtype(opt_val(*field)),
{
    match field {
        Some(CqlValue::Int(_)) => INT,
        Some(CqlValue::BigInt(_)) => BIGINT,
        Some(CqlValue::Text(_)) => TEXT,
        Some(CqlValue::Boolean(_)) => BOOLEAN,
        Some(CqlValue::Float(_)) => FLOAT,
        Some(CqlValue::Double(_)) => DOUBLE,
        Some(CqlValue::UserDefinedType { .. }) => UDT,
        _ => BLOB,
    }
}

/// Appends the elements of a list.
fn encode_list_elements(elements: &Vec<CqlValue>, buf: &mut BytesMut) -> (r: Result<
    (),
    CodecError,
>)
    ensures
        wrote(list_tails(vals(elements@)), r, mut_contents(*old(buf)), mut_contents(*final(buf))),
    decreases elements, 0int,
{
    let ghost s = vals(elements@);
    let ghost start = mut_contents(*buf);
    let ghost mut done = Seq::<u8>::empty();
    let mut i: usize = 0;
    assert(s.skip(0) =~= s);
    proof {
        lemma_after(done, Seq::empty(), list_tails(s));
    }
    while i < elements.len()
        invariant
            i <= elements.len(),
            s == vals(elements@),
            start == mut_contents(*old(buf)),
            mut_contents(*buf) == start + done,
            list_tails(s) == after(done, list_tails(s.skip(i as int))),
        decreases elements.len() - i,
    {
        let ghost rest = s.skip(i as int);
        assert(rest[0] == elements@[i as int]@);
        assert(rest.skip(1) =~= s.skip(i + 1));
        let ghost before = mut_contents(*buf);
        let ghost mut more = Seq::<u8>::empty();
        match &elements[i] {
            CqlValue::Vector(vec_elements) => {
                let len: usize = vec_elements.len();
                if len > 0x1FFF_FFFF {
                    return Err(CodecError::TooLong(Limit::Vector));
                }
                put_i32(buf, (len * 4) as i32);
                let put: Result<(), CodecError> = put_floats(buf, vec_elements);
                if let Err(e) = put {
                    return Err(e);
                }
                proof {
                    more = be4((len * 4) as int) + floats(vals(vec_elements@))->Ok_0;
                }
            },
            _ => {
                let put: Result<(), CodecError> = encode_stripped(&elements[i], buf);
                if let Err(e) = put {
                    return Err(e);
                }
                proof {
                    more = tail(elements@[i as int]@)->Ok_0;
                }
            },
        }
        proof {
            lemma_after(done, more, list_tails(s.skip(i + 1)));
            done = done + more;
            assert(mut_contents(*buf) =~= start + done);
        }
        i = i + 1;
    }
    assert(s.skip(i as int) =~= Seq::empty());
    proof {
        lemma_after(done, Seq::empty(), list_tails(s));
    }
    Ok(())
}

/// Appends the elements of a set.
fn encode_elements(elements: &Vec<CqlValue>, buf: &mut BytesMut) -> (r: Result<(), CodecError>)
    ensures
        wrote(tails(vals(elements@)), r, mut_contents(*old(buf)), mut_contents(*final(buf))),
    decreases elements, 0int,
{
    let ghost s = vals(elements@);
    let ghost start = mut_contents(*buf);
    let ghost mut done = Seq::<u8>::empty();
    let mut i: usize = 0;
    assert(s.skip(0) =~= s);
    proof {
        lemma_after(done, Seq::empty(), tails(s));
    }
    while i < elements.len()
        invariant
            i <= elements.len(),
            s == vals(elements@),
            start == mut_contents(*old(buf)),
            mut_contents(*buf) == start + done,
            tails(s) == after(done, tails(s.skip(i as int))),
        decreases elements.len() - i,
    {
        let ghost rest = s.skip(i as int);
        assert(rest[0] == elements@[i as int]@);
        assert(rest.skip(1) =~= s.skip(i + 1));
        let put: Result<(), CodecError> = encode_stripped(&elements[i], buf);
        if let Err(e) = put {
            return Err(e);
        }
        proof {
            let more = tail(elements@[i as int]@)->Ok_0;
            lemma_after(done, more, tails(s.skip(i + 1)));
            done = done + more;
            assert(mut_contents(*buf) =~= start + done);
        }
        i = i + 1;
    }
    assert(s.skip(i as int) =~= Seq::empty());
    proof {
        lemma_after(done, Seq::empty(), tails(s));
    }
    Ok(())
}

/// Appends the entries of a map.
fn encode_entries(entries: &Vec<(CqlValue, CqlValue)>, buf: &mut BytesMut) -> (r: Result<
    (),
    CodecError,
>)
    ensures
        wrote(
            entry_tails(entry_vals(entries@)),
            r,
            mut_contents(*old(buf)),
            mut_contents(*final(buf)),
        ),
    decreases entries, 0int,
{
    let ghost s = entry_vals(entries@);
    let ghost start = mut_contents(*buf);
    let ghost mut done = Seq::<u8>::empty();
    let mut i: usize = 0;
    assert(s.skip(0) =~= s);
    proof {
        lemma_after(done, Seq::empty(), entry_tails(s));
    }
    while i < entries.len()
        invariant
            i <= entries.len(),
            s == entry_vals(entries@),
            start == mut_contents(*old(buf)),
            mut_contents(*buf) == start + done,
            entry_tails(s) == after(done, entry_tails(s.skip(i as int))),
        decreases entries.len() - i,
    {
        let ghost rest = s.skip(i as int);
        assert(rest[0] == (entries@[i as int].0@, entries@[i as int].1@));
        assert(rest.skip(1) =~= s.skip(i + 1));
        proof {
            assert(decreases_to!(entries => entries@[i as int]));
        }
        let put: Result<(), CodecError> = encode_stripped(&entries[i].0, buf);
        if let Err(e) = put {
            return Err(e);
        }
        let put: Result<(), CodecError> = encode_stripped(&entries[i].1, buf);
        if let Err(e) = put {
            return Err(e);
        }
        proof {
            let more = tail(rest[0].0)->Ok_0 + tail(rest[0].1)->Ok_0;
            lemma_after(done, more, entry_tails(s.skip(i + 1)));
            done = done + more;
            assert(mut_contents(*buf) =~= start + done);
        }
        i = i + 1;
    }
    assert(s.skip(i as int) =~= Seq::empty());
    proof {
        lemma_after(done, Seq::empty(), entry_tails(s));
    }
    Ok(())
}

/// Appends an optional value.
fn encode_optional(value: &Option<CqlValue>, buf: &mut BytesMut) -> (r: Result<(), CodecError>)
    ensures
        wrote(opt_tail(opt_val(*value)), r, mut_contents(*old(buf)), mut_contents(*final(buf))),
    decreases value, 3int,
{
    match value {
        Some(v) => encode_stripped(v, buf),
        None => {
            put_i32(buf, -1);
            Ok(())
        },
    }
}

/// Appends the elements of a tuple.
fn encode_tuple_elements(elements: &Vec<Option<CqlValue>>, buf: &mut BytesMut) -> (r: Result<
    (),
    CodecError,
>)
    ensures
        wrote(opt_tails(opt_vals(elements@)), r, mut_contents(*old(buf)), mut_contents(*final(buf))),
    decreases elements, 0int,
{
    let ghost s = opt_vals(elements@);
    let ghost start = mut_contents(*buf);
    let ghost mut done = Seq::<u8>::empty();
    let mut i: usize = 0;
    assert(s.skip(0) =~= s);
    proof {
        lemma_after(done, Seq::empty(), opt_tails(s));
    }
    while i < elements.len()
        invariant
            i <= elements.len(),
            s == opt_vals(elements@),
            start == mut_contents(*old(buf)),
            mut_contents(*buf) == start + done,
            opt_tails(s) == after(done, opt_tails(s.skip(i as int))),
        decreases elements.len() - i,
    {
        let ghost rest = s.skip(i as int);
        assert(rest[0] == opt_val(elements@[i as int]));
        assert(rest.skip(1) =~= s.skip(i + 1));
        let put: Result<(), CodecError> = encode_optional(&elements[i], buf);
        if let Err(e) = put {
            return Err(e);
        }
        proof {
            let more = opt_tail(rest[0])->Ok_0;
            lemma_after(done, more, opt_tails(s.skip(i + 1)));
            done = done + more;
            assert(mut_contents(*buf) =~= start + done);
        }
        i = i + 1;
    }
    assert(s.skip(i as int) =~= Seq::empty());
    proof {
        lemma_after(done, Seq::empty(), opt_tails(s));
    }
    Ok(())
}

/// Appends the field values of a user-defined type.
fn encode_fields(fields: &Vec<(String, Option<CqlValue>)>, buf: &mut BytesMut) -> (r: Result<
    (),
    CodecError,
>)
    ensures
        wrote(
            field_tails(field_vals(fields@)),
            r,
            mut_contents(*old(buf)),
            mut_contents(*final(buf)),
        ),
    decreases fields, 0int,
{
    let ghost s = field_vals(fields@);
    let ghost start = mut_contents(*buf);
    let ghost mut done = Seq::<u8>::empty();
    let mut i: usize = 0;
    assert(s.skip(0) =~= s);
    proof {
        lemma_after(done, Seq::empty(), field_tails(s));
    }
    while i < fields.len()
        invariant
            i <= fields.len(),
            s == field_vals(fields@),
            start == mut_contents(*old(buf)),
            mut_contents(*buf) == start + done,
            field_tails(s) == after(done, field_tails(s.skip(i as int))),
        decreases fields.len() - i,
    {
        let ghost rest = s.skip(i as int);
        assert(rest[0] == (fields@[i as int].0@, opt_val(fields@[i as int].1)));
        assert(rest.skip(1) =~= s.skip(i + 1));
        proof {
            assert(decreases_to!(fields => fields@[i as int]));
        }
        let put: Result<(), CodecError> = encode_optional(&fields[i].1, buf);
        if let Err(e) = put {
            return Err(e);
        }
        proof {
            let more = opt_tail(rest[0].1)->Ok_0;
            lemma_after(done, more, field_tails(s.skip(i + 1)));
            done = done + more;
            assert(mut_contents(*buf) =~= start + done);
        }
        i = i + 1;
    }
    assert(s.skip(i as int) =~= Seq::empty());
    proof {
        lemma_after(done, Seq::empty(), field_tails(s));
    }
    Ok(())
}

/// Appends the types of the elements of a tuple.
fn put_tuple_types(elements: &Vec<Option<CqlValue>>, buf: &mut BytesMut)
    ensures
        mut_contents(*final(buf)) == mut_contents(*old(buf)) + tuple_types(opt_vals(elements@)),
{
    let ghost s = opt_vals(elements@);
    let ghost start = mut_contents(*buf);
    let ghost mut done = Seq::<u8>::empty();
    let mut i: usize = 0;
    assert(s.skip(0) =~= s);
    assert(done + tuple_types(s) =~= tuple_types(s));
    while i < elements.len()
        invariant
            i <= elements.len(),
            s == opt_vals(elements@),
            mut_contents(*buf) == start + done,
            tuple_types(s) == done + tuple_types(s.skip(i as int)),
        decreases elements.len() - i,
    {
        let ghost rest = s.skip(i as int);
        assert(rest[0] == opt_val(elements@[i as int]));
        assert(rest.skip(1) =~= s.skip(i + 1));
        let c: u16 = tuple_code(&elements[i]);
        put_u16(buf, c);
        proof {
            assert(done + (be2(c as int) + tuple_types(s.skip(i + 1))) =~= (done + be2(c as int))
                + tuple_types(s.skip(i + 1)));
            done = done + be2(c as int);
            assert(mut_contents(*buf) =~= start + done);
        }
        i = i + 1;
    }
    assert(s.skip(i as int) =~= Seq::empty());
    assert(done + tuple_types(s.skip(i as int)) =~= done);
}

/// Appends the names and types of the fields of a user-defined type.
fn put_udt_types(fields: &Vec<(String, Option<CqlValue>)>, buf: &mut BytesMut) -> (r: Result<
    (),
    CodecError,
>)
    ensures
        wrote(udt_types(field_vals(fields@)), r, mut_contents(*old(buf)), mut_contents(*final(buf))),
{
    let ghost s = field_vals(fields@);
    let ghost start = mut_contents(*buf);
    let ghost mut done = Seq::<u8>::empty();
    let mut i: usize = 0;
    assert(s.skip(0) =~= s);
    proof {
        lemma_after(done, Seq::empty(), udt_types(s));
    }
    while i < fields.len()
        invariant
            i <= fields.len(),
            s == field_vals(fields@),
            start == mut_contents(*old(buf)),
            mut_contents(*buf) == start + done,
            udt_types(s) == after(done, udt_types(s.skip(i as int))),
        decreases fields.len() - i,
    {
        let ghost rest = s.skip(i as int);
        assert(rest[0] == (fields@[i as int].0@, opt_val(fields@[i as int].1)));
        assert(rest.skip(1) =~= s.skip(i + 1));
        let name: &[u8] = fields[i].0.as_str().as_bytes();
        let len: usize = name.len();
        if len > 0xFFFF {
            return Err(CodecError::TooLong(Limit::FieldName));
        }
        put_u16(buf, len as u16);
        put_slice(buf, name);
        let c: u16 = field_code(&fields[i].1);
        put_u16(buf, c);
        proof {
            let more = be2(len as int) + name@ + be2(c as int);
            lemma_after(done, more, udt_types(s.skip(i + 1)));
            done = done + more;
            assert(mut_contents(*buf) =~= start + done);
        }
        i = i + 1;
    }
    assert(s.skip(i as int) =~= Seq::empty());
    proof {
        lemma_after(done, Seq::empty(), udt_types(s));
    }
    Ok(())
}

/// Appends a list.
fn encode_list(elements: &Vec<CqlValue>, buf: &mut BytesMut) -> (r: Result<(), CodecError>)
    requires
        !is_packed(vals(elements@)),
    ensures
        wrote(
            after(be2(LIST as int), list_tail(vals(elements@))),
            r,
            mut_contents(*old(buf)),
            mut_contents(*final(buf)),
        ),
    decreases elements, 1int,
{
    let ghost s = vals(elements@);
    let ghost start = mut_contents(*buf);
    put_u16(buf, LIST);
    let subtype: u16 = list_code(elements);
    let pos: usize = mut_len(buf);
    let ghost head = mut_contents(*buf);
    put_i32(buf, 0);
    put_u16(buf, subtype);
    let ghost mut vector = Seq::<u8>::empty();
    if elements.len() > 0 {
        assert(s[0] == elements@[0]@);
        if let CqlValue::Vector(first) = &elements[0] {
            put_u16(buf, FLOAT);
            let dimension: usize = first.len();
            assert(s[0] == Val::Vector(vals(first@)));
            if dimension > 0xFFFF {
                assert(start.is_prefix_of(mut_contents(*buf)));
                assert(list_tail(s) == Coded::Err(CodecError::TooLong(Limit::VectorDimension)));
                return Err(CodecError::TooLong(Limit::VectorDimension));
            }
            put_u16(buf, dimension as u16);
            proof {
                vector = be2(FLOAT as int) + be2(dimension as int);
            }
        }
    }
    let n_elements: usize = elements.len();
    if n_elements > 0x7FFF_FFFF {
        assert(start.is_prefix_of(mut_contents(*buf)));
        return Err(CodecError::TooLong(Limit::ListElements));
    }
    put_i32(buf, n_elements as i32);
    let ghost front = be2(subtype as int) + vector + be4(n_elements as int);
    assert(mut_contents(*buf) =~= head + be4(0) + front);
    let put: Result<(), CodecError> = encode_list_elements(elements, buf);
    if let Err(e) = put {
        return Err(e);
    }
    proof {
        let bytes = list_tails(s)->Ok_0;
        assert(mut_contents(*buf).skip(pos + 4) =~= front + bytes);
        assert(mut_contents(*buf).take(pos as int) =~= head);
    }
    let filled: Result<(), CodecError> = fill_length(buf, pos, Limit::List);
    assert(head =~= start + be2(LIST as int));
    proof {
        if let Ok(t) = list_tail(s) {
            assert(head + t =~= start + (be2(LIST as int) + t));
        }
    }
    filled
}

/// Appends a set.
fn encode_set(elements: &Vec<CqlValue>, buf: &mut BytesMut) -> (r: Result<(), CodecError>)
    ensures
        wrote(
            encoded(Val::SetOf(vals(elements@))),
            r,
            mut_contents(*old(buf)),
            mut_contents(*final(buf)),
        ),
    decreases elements, 1int,
{
    let ghost s = vals(elements@);
    let ghost start = mut_contents(*buf);
    put_u16(buf, SET);
    let subtype: u16 = if elements.len() > 0 {
        assert(s[0] == elements@[0]@);
        item_code(&elements[0])
    } else {
        BLOB
    };
    let pos: usize = mut_len(buf);
    let ghost head = mut_contents(*buf);
    put_i32(buf, 0);
    put_u16(buf, subtype);
    let n_elements: usize = elements.len();
    if n_elements > 0x7FFF_FFFF {
        return Err(CodecError::TooLong(Limit::SetElements));
    }
    put_i32(buf, n_elements as i32);
    let ghost front = be2(subtype as int) + be4(n_elements as int);
    assert(mut_contents(*buf) =~= head + be4(0) + front);
    let put: Result<(), CodecError> = encode_elements(elements, buf);
    if let Err(e) = put {
        return Err(e);
    }
    proof {
        let bytes = tails(s)->Ok_0;
        assert(mut_contents(*buf).skip(pos + 4) =~= front + bytes);
        assert(mut_contents(*buf).take(pos as int) =~= head);
    }
    let filled: Result<(), CodecError> = fill_length(buf, pos, Limit::SetData);
    assert(head =~= start + be2(SET as int));
    proof {
        if let Ok(t) = tail(Val::SetOf(s)) {
            assert(head + t =~= start + (be2(SET as int) + t));
        }
    }
    filled
}

/// Appends a map.
fn encode_map(entries: &Vec<(CqlValue, CqlValue)>, buf: &mut BytesMut) -> (r: Result<
    (),
    CodecError,
>)
    ensures
        wrote(
            encoded(Val::MapOf(entry_vals(entries@))),
            r,
            mut_contents(*old(buf)),
            mut_contents(*final(buf)),
        ),
    decreases entries, 1int,
{
    let ghost s = entry_vals(entries@);
    let ghost start = mut_contents(*buf);
    put_u16(buf, MAP);
    let (key, value): (u16, u16) = if entries.len() > 0 {
        assert(s[0] == (entries@[0].0@, entries@[0].1@));
        (key_code(&entries[0].0), item_code(&entries[0].1))
    } else {
        (BLOB, BLOB)
    };
    let pos: usize = mut_len(buf);
    let ghost head = mut_contents(*buf);
    put_i32(buf, 0);
    put_u16(buf, key);
    put_u16(buf, value);
    let n_entries: usize = entries.len();
    if n_entries > 0x7FFF_FFFF {
        return Err(CodecError::TooLong(Limit::MapEntries));
    }
    put_i32(buf, n_entries as i32);
    let ghost front = be2(key as int) + be2(value as int) + be4(n_entries as int);
    assert(mut_contents(*buf) =~= head + be4(0) + front);
    let put: Result<(), CodecError> = encode_entries(entries, buf);
    if let Err(e) = put {
        return Err(e);
    }
    proof {
        let bytes = entry_tails(s)->Ok_0;
        assert(mut_contents(*buf).skip(pos + 4) =~= front + bytes);
        assert(mut_contents(*buf).take(pos as int) =~= head);
    }
    let filled: Result<(), CodecError> = fill_length(buf, pos, Limit::MapData);
    assert(head =~= start + be2(MAP as int));
    proof {
        if let Ok(t) = tail(Val::MapOf(s)) {
            assert(head + t =~= start + (be2(MAP as int) + t));
        }
    }
    filled
}

/// Appends a tuple.
fn encode_tuple(elements: &Vec<Option<CqlValue>>, buf: &mut BytesMut) -> (r: Result<
    (),
    CodecError,
>)
    ensures
        wrote(
            encoded(Val::Tuple(opt_vals(elements@))),
            r,
            mut_contents(*old(buf)),
            mut_contents(*final(buf)),
        ),
    decreases elements, 1int,
{
    let ghost s = opt_vals(elements@);
    let ghost start = mut_contents(*buf);
    put_u16(buf, TUPLE);
    let pos: usize = mut_len(buf);
    let ghost head = mut_contents(*buf);
    put_i32(buf, 0);
    let n_elements: usize = elements.len();
    if n_elements > 0xFFFF {
        return Err(CodecError::TooLong(Limit::TupleElements));
    }
    put_u16(buf, n_elements as u16);
    put_tuple_types(elements, buf);
    let ghost front = be2(n_elements as int) + tuple_types(s);
    assert(mut_contents(*buf) =~= head + be4(0) + front);
    let put: Result<(), CodecError> = encode_tuple_elements(elements, buf);
    if let Err(e) = put {
        return Err(e);
    }
    proof {
        let bytes = opt_tails(s)->Ok_0;
        assert(mut_contents(*buf).skip(pos + 4) =~= front + bytes);
        assert(mut_contents(*buf).take(pos as int) =~= head);
    }
    let filled: Result<(), CodecError> = fill_length(buf, pos, Limit::Tuple);
    assert(head =~= start + be2(TUPLE as int));
    proof {
        if let Ok(t) = tail(Val::Tuple(s)) {
            assert(head + t =~= start + (be2(TUPLE as int) + t));
        }
    }
    filled
}

/// Appends a value of a user-defined type.
fn encode_udt(
    fields: &Vec<(String, Option<CqlValue>)>,
    buf: &mut BytesMut,
    Ghost(keyspace): Ghost<Seq<char>>,
    Ghost(name): Ghost<Seq<char>>,
) -> (r: Result<(), CodecError>)
    ensures
        wrote(
            encoded(Val::Udt(keyspace, name, field_vals(fields@))),
            r,
            mut_contents(*old(buf)),
            mut_contents(*final(buf)),
        ),
    decreases fields, 1int,
{
    let ghost s = field_vals(fields@);
    let ghost start = mut_contents(*buf);
    put_u16(buf, UDT);
    let pos: usize = mut_len(buf);
    let ghost head = mut_contents(*buf);
    put_i32(buf, 0);
    let n_fields: usize = fields.len();
    if n_fields > 0xFFFF {
        return Err(CodecError::TooLong(Limit::UdtFields));
    }
    put_u16(buf, n_fields as u16);
    let put: Result<(), CodecError> = put_udt_types(fields, buf);
    if let Err(e) = put {
        return Err(e);
    }
    let ghost front = be2(n_fields as int) + udt_types(s)->Ok_0;
    assert(mut_contents(*buf) =~= head + be4(0) + front);
    let put: Result<(), CodecError> = encode_fields(fields, buf);
    if let Err(e) = put {
        return Err(e);
    }
    proof {
        let bytes = field_tails(s)->Ok_0;
        assert(mut_contents(*buf).skip(pos + 4) =~= front + bytes);
        assert(mut_contents(*buf).take(pos as int) =~= head);
    }
    let filled: Result<(), CodecError> = fill_length(buf, pos, Limit::Udt);
    assert(head =~= start + be2(UDT as int));
    proof {
        if let Ok(t) = tail(Val::Udt(keyspace, name, s)) {
            assert(head + t =~= start + (be2(UDT as int) + t));
        }
    }
    filled
}

/// Appends a vector of floats.
fn encode_vector(elements: &Vec<CqlValue>, buf: &mut BytesMut) -> (r: Result<(), CodecError>)
    ensures
        wrote(
            encoded(Val::Vector(vals(elements@))),
            r,
            mut_contents(*old(buf)),
            mut_contents(*final(buf)),
        ),
{
    let ghost s = vals(elements@);
    let ghost start = mut_contents(*buf);
    put_u16(buf, VECTOR);
    let dimension: usize = elements.len();
    if dimension > 0xFFFF {
        return Err(CodecError::TooLong(Limit::VectorDimension));
    }
    put_i32(buf, (4 + dimension * 4) as i32);
    put_u16(buf, FLOAT);
    put_u16(buf, dimension as u16);
    let put: Result<(), CodecError> = put_floats(buf, elements);
    proof {
        lemma_floats_len(s);
        if let Ok(f) = floats(s) {
            assert((be2(FLOAT as int) + be2(dimension as int) + f).len() == 4 + dimension * 4);
            assert(mut_contents(*buf) =~= start + encoded(Val::Vector(s))->Ok_0);
        }
    }
    put
}

/// A float takes four bytes.
pub proof fn lemma_floats_len(elements: Seq<Val>)
    ensures
        floats(elements) is Ok ==> floats(elements)->Ok_0.len() == elements.len() * 4,
    decreases elements.len(),
{
    if elements.len() > 0 {
        lemma_floats_len(elements.skip(1));
    }
}

/// Appends a value of four signed bytes.
fn put_int(buf: &mut BytesMut, c: u16, n: i32)
    ensures
        mut_contents(*final(buf)) == mut_contents(*old(buf)) + (be2(c as int) + sized(
            be4(n as int),
        )),
{
    put_u16(buf, c);
    put_i32(buf, 4);
    put_i32(buf, n);
    assert(mut_contents(*buf) =~= mut_contents(*old(buf)) + (be2(c as int) + sized(be4(n as int))));
}

/// Appends a value of four unsigned bytes.
fn put_word(buf: &mut BytesMut, c: u16, n: u32)
    ensures
        mut_contents(*final(buf)) == mut_contents(*old(buf)) + (be2(c as int) + sized(
            be4(n as int),
        )),
{
    put_u16(buf, c);
    put_i32(buf, 4);
    put_u32(buf, n);
    assert(mut_contents(*buf) =~= mut_contents(*old(buf)) + (be2(c as int) + sized(be4(n as int))));
}

/// Appends a value of eight signed bytes.
fn put_long(buf: &mut BytesMut, c: u16, n: i64)
    ensures
        mut_contents(*final(buf)) == mut_contents(*old(buf)) + (be2(c as int) + sized(
            be8(n as int),
        )),
{
    put_u16(buf, c);
    put_i32(buf, 8);
    put_i64(buf, n);
    assert(mut_contents(*buf) =~= mut_contents(*old(buf)) + (be2(c as int) + sized(be8(n as int))));
}

/// Appends a value of eight unsigned bytes.
fn put_double_word(buf: &mut BytesMut, c: u16, n: u64)
    ensures
        mut_contents(*final(buf)) == mut_contents(*old(buf)) + (be2(c as int) + sized(
            be8(n as int),
        )),
{
    put_u16(buf, c);
    put_i32(buf, 8);
    put_u64(buf, n);
    assert(mut_contents(*buf) =~= mut_contents(*old(buf)) + (be2(c as int) + sized(be8(n as int))));
}

/// Appends a value of one byte.
fn put_byte(buf: &mut BytesMut, c: u16, n: u8)
    ensures
        mut_contents(*final(buf)) == mut_contents(*old(buf)) + (be2(c as int) + sized(seq![n])),
{
    put_u16(buf, c);
    put_i32(buf, 1);
    put_u8(buf, n);
    assert(mut_contents(*buf) =~= mut_contents(*old(buf)) + (be2(c as int) + sized(seq![n])));
}

/// Appends a value of any number of bytes.
fn put_bytes(buf: &mut BytesMut, c: u16, data: &[u8], what: Limit) -> (r: Result<(), CodecError>)
    ensures
        wrote(
            after(be2(c as int), sized_or(data@, what)),
            r,
            mut_contents(*old(buf)),
            mut_contents(*final(buf)),
        ),
{
    put_u16(buf, c);
    let put: Result<(), CodecError> = put_sized(buf, data, what);
    proof {
        let start = mut_contents(*old(buf));
        if data@.len() <= max_len() {
            assert(start + be2(c as int) + sized(data@) =~= start + (be2(c as int) + sized(data@)));
        }
    }
    put
}

/// Appends a value: its type code, its length and its data. A null is sent as
/// a length of -1, and a list of float vectors in the packed format.
#[verifier::rlimit(80)]
pub fn encode_value(value: &CqlValue, buf: &mut BytesMut) -> (r: Result<(), CodecError>)
    ensures
        wrote(encoded(value@), r, mut_contents(*old(buf)), mut_contents(*final(buf))),
    decreases value, 1int,
{
    match value {
        CqlValue::TinyInt(v) => {
            put_u16(buf, TINYINT);
            put_i32(buf, 1);
            put_i8(buf, *v);
            assert(mut_contents(*buf) =~= mut_contents(*old(buf)) + encoded(value@)->Ok_0);
        },
        CqlValue::SmallInt(v) => {
            put_u16(buf, SMALLINT);
            put_i32(buf, 2);
            put_i16(buf, *v);
            assert(mut_contents(*buf) =~= mut_contents(*old(buf)) + encoded(value@)->Ok_0);
        },
        CqlValue::Int(v) => put_int(buf, INT, *v),
        CqlValue::BigInt(v) => put_long(buf, BIGINT, *v),
        CqlValue::Text(v) => {
            return put_bytes(buf, TEXT, v.as_str().as_bytes(), Limit::Text);
        },
        CqlValue::Ascii(v) => {
            return put_bytes(buf, ASCII, v.as_str().as_bytes(), Limit::Ascii);
        },
        CqlValue::Boolean(v) => put_byte(
            buf,
            BOOLEAN,
            if *v {
                1
            } else {
                0
            },
        ),
        CqlValue::Float(v) => put_word(buf, FLOAT, *v),
        CqlValue::Double(v) => put_double_word(buf, DOUBLE, *v),
        CqlValue::Uuid(v) => {
            return put_bytes(buf, UUID, v.as_slice(), Limit::Blob);
        },
        CqlValue::Timeuuid(v) => {
            return put_bytes(buf, TIMEUUID, v.as_slice(), Limit::Blob);
        },
        CqlValue::Blob(v) => {
            return put_bytes(buf, BLOB, v.as_slice(), Limit::Blob);
        },
        CqlValue::Timestamp(v) => put_long(buf, TIMESTAMP, *v),
        CqlValue::Date(v) => put_word(buf, DATE, *v),
        CqlValue::Time(v) => put_long(buf, TIME, *v),
        CqlValue::Inet(v) => {
            return match v {
                IpAddr::V4(octets) => put_bytes(buf, INET, octets.as_slice(), Limit::Blob),
                IpAddr::V6(octets) => put_bytes(buf, INET, octets.as_slice(), Limit::Blob),
            };
        },
        CqlValue::Counter(v) => put_long(buf, COUNTER, *v),
        CqlValue::Empty => {
            put_u16(buf, BLOB);
            put_i32(buf, -1);
            assert(mut_contents(*buf) =~= mut_contents(*old(buf)) + encoded(value@)->Ok_0);
        },
        CqlValue::Vector(elements) => {
            return encode_vector(elements, buf);
        },
        CqlValue::List(elements) => {
            if elements.len() > 0 {
                assert(vals(elements@)[0] == elements@[0]@);
                if let CqlValue::Vector(first) = &elements[0] {
                    let is_float_vector: bool = if first.len() == 0 {
                        true
                    } else {
                        assert(vals(first@)[0] == first@[0]@);
                        matches!(&first[0], CqlValue::Float(_) | CqlValue::Double(_))
                    };
                    if is_float_vector {
                        return encode_packed(elements, first.len(), buf);
                    }
                }
            }
            return encode_list(elements, buf);
        },
        CqlValue::SetOf(elements) => {
            return encode_set(elements, buf);
        },
        CqlValue::MapOf(entries) => {
            return encode_map(entries, buf);
        },
        CqlValue::Tuple(elements) => {
            return encode_tuple(elements, buf);
        },
        CqlValue::UserDefinedType { keyspace, name, fields } => {
            return encode_udt(fields, buf, Ghost(keyspace@), Ghost(name@));
        },
        CqlValue::Decimal { .. } | CqlValue::Duration(_) | CqlValue::Varint(_) => {
            return Err(CodecError::Unsupported);
        },
    }
    Ok(())
}

} // verus!
