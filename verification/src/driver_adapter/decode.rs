//! Decoding of bind values by the type code that is sent with them.

use crate::error::{after, lemma_after, CodecError, Part, VectorKind};
use crate::ipc::decode::{
    array16, array4, copy_bytes, count_at, did_decode, float_vals, low_i32, read_count,
    after_at, lemma_after_at, read_floats, wrap_i32, Decoded,
};
use crate::reader::{data_at, nullable_at, read_data, read_nullable, read_short, short_at, At};
use crate::text::{from_utf8, from_utf8_lossy, utf8_lossy};
use crate::value::{
    entry_vals, field_vals, lemma_entry_vals_push, lemma_field_vals_push, lemma_opt_vals_push,
    lemma_vals_push, opt_val, opt_vals, vals, CqlValue, IpAddr, Val, NativeType,
};
use crate::wire::{
    read_be2, read_be4, read_be8, signed1, signed2, signed4, signed8, to_i16, to_i32, to_i64,
    to_i8, un2, un4, un8,
};
use vstd::prelude::*;
use vstd::string::*;
use vstd::utf8::{decode_utf8, valid_utf8};

verus! {

/// The lower 16 bits of a number, read as a signed one.
pub open spec fn low_i16(n: i64) -> i16 {
    signed2(n as int % 0x1_0000) as i16
}

/// The lower 8 bits of a number, read as a signed one.
pub open spec fn low_i8(n: i64) -> i8 {
    signed1(n as int % 0x100) as i8
}

/// The integer in one, two, four or eight bytes.
pub open spec fn int_of(data: Seq<u8>) -> Result<i64, CodecError> {
    if data.len() == 1 {
        Ok(signed1(data[0] as int) as i64)
    } else if data.len() == 2 {
        Ok(signed2(un2(data)) as i64)
    } else if data.len() == 4 {
        Ok(signed4(un4(data)) as i64)
    } else if data.len() == 8 {
        Ok(signed8(un8(data)) as i64)
    } else {
        Err(CodecError::IntegerLength(data.len() as usize))
    }
}

/// The next `n` numbers of 16 bits.
pub open spec fn shorts_at(s: Seq<u8>, n: nat) -> At<Seq<u16>>
    decreases n,
{
    if n == 0 {
        Ok((Seq::empty(), s))
    } else {
        match short_at(s) {
            Err(e) => Err(e),
            Ok((first, s)) => match shorts_at(s, (n - 1) as nat) {
                Err(e) => Err(e),
                Ok((more, s)) => Ok((seq![first] + more, s)),
            },
        }
    }
}

/// The name and the type of a field of a user-defined type.
pub open spec fn field_info_at(s: Seq<u8>) -> At<(Seq<char>, u16)> {
    match short_at(s) {
        Err(e) => Err(e),
        Ok((len, s)) => match data_at(s, len as nat, Part::UdtFieldName) {
            Err(e) => Err(e),
            Ok((name, s)) => match short_at(s) {
                Err(e) => Err(e),
                Ok((code, s)) => Ok(((utf8_lossy(name), code), s)),
            },
        },
    }
}

/// The names and types of the next `n` fields.
pub open spec fn field_infos_at(s: Seq<u8>, n: nat) -> At<Seq<(Seq<char>, u16)>>
    decreases n,
{
    if n == 0 {
        Ok((Seq::empty(), s))
    } else {
        match field_info_at(s) {
            Err(e) => Err(e),
            Ok((first, s)) => match field_infos_at(s, (n - 1) as nat) {
                Err(e) => Err(e),
                Ok((more, s)) => Ok((seq![first] + more, s)),
            },
        }
    }
}

/// A vector of `dimension` floats that takes all of the bytes.
pub open spec fn float_vector_of(data: Seq<u8>, dimension: nat, kind: VectorKind) -> Decoded {
    if data.len() != dimension * 4 {
        Err(CodecError::VectorSizeMismatch(kind, (dimension * 4) as u64, data.len() as usize))
    } else {
        Ok(Val::Vector(float_vals(data, dimension)))
    }
}

/// A vector: its element type, which must be float, its dimension and the floats.
pub open spec fn vector_of(data: Seq<u8>) -> Decoded {
    match short_at(data) {
        Err(e) => Err(e),
        Ok((subtype, s)) => match short_at(s) {
            Err(e) => Err(e),
            Ok((dimension, s)) => if subtype != 0x0008 {
                Err(CodecError::VectorSubtype(subtype))
            } else {
                float_vector_of(s, dimension as nat, VectorKind::Value)
            },
        },
    }
}

/// `n` vectors of one dimension, one after the other.
pub open spec fn packed_vectors(data: Seq<u8>, n: nat, dimension: nat) -> Seq<Val> {
    Seq::new(
        n,
        |i: int| Val::Vector(float_vals(data.skip(i * (dimension * 4)), dimension)),
    )
}

/// A packed list of float vectors: their number, their dimension and all floats.
pub open spec fn packed_of(data: Seq<u8>) -> Decoded {
    match count_at(data) {
        Err(e) => Err(e),
        Ok((n, s)) => match short_at(s) {
            Err(e) => Err(e),
            Ok((dimension, s)) => if s.len() != n * (dimension * 4) {
                Err(
                    CodecError::VectorSizeMismatch(
                        VectorKind::Packed(n as usize, dimension),
                        (n * (dimension * 4)) as u64,
                        s.len() as usize,
                    ),
                )
            } else {
                Ok(Val::List(packed_vectors(s, n, dimension as nat)))
            },
        },
    }
}

/// What a list announces about its elements: their type, and for float vectors their dimension.
pub open spec fn list_head_at(data: Seq<u8>) -> At<(u16, Option<nat>)> {
    match short_at(data) {
        Err(e) => Err(e),
        Ok((subtype, s)) => if subtype == 0x0030 {
            match short_at(s) {
                Err(e) => Err(e),
                Ok((element, s)) => match short_at(s) {
                    Err(e) => Err(e),
                    Ok((dimension, s)) => Ok(
                        (
                            (
                                subtype,
                                if element == 0x0008 {
                                    Some(dimension as nat)
                                } else {
                                    None
                                },
                            ),
                            s,
                        ),
                    ),
                },
            }
        } else {
            Ok(((subtype, None), s))
        },
    }
}

/// The next `n` elements of a list or set, without the nulls; where a
/// dimension is given, they are bare float vectors.
pub open spec fn elements_of(
    s: Seq<u8>,
    n: nat,
    subtype: u16,
    dimension: Option<nat>,
    part: Part,
) -> Result<Seq<Val>, CodecError>
    decreases s.len(), 0int,
{
    if n == 0 {
        Ok(Seq::empty())
    } else {
        match nullable_at(s, part) {
            Err(e) => Err(e),
            Ok((None, rest)) => elements_of(rest, (n - 1) as nat, subtype, dimension, part),
            Ok((Some(data), rest)) => {
                let element = match dimension {
                    Some(d) => float_vector_of(data, d, VectorKind::Element),
                    None => typed(data, subtype),
                };
                match element {
                    Err(e) => Err(e),
                    Ok(v) => after(
                        seq![v],
                        elements_of(rest, (n - 1) as nat, subtype, dimension, part),
                    ),
                }
            },
        }
    }
}

/// The next `n` entries of a map. A null value is kept as an empty one.
pub open spec fn entries_of(s: Seq<u8>, n: nat, key_type: u16, value_type: u16) -> Result<
    Seq<(Val, Val)>,
    CodecError,
>
    decreases s.len(), 0int,
{
    if n == 0 {
        Ok(Seq::empty())
    } else {
        match nullable_at(s, Part::MapKey) {
            Err(e) => Err(e),
            Ok((None, _)) => Err(CodecError::NullMapKey),
            Ok((Some(data), rest)) => match typed(data, key_type) {
                Err(e) => Err(e),
                Ok(key) => match nullable_at(rest, Part::MapValue) {
                    Err(e) => Err(e),
                    Ok((item, rest2)) => {
                        let value = match item {
                            None => Ok(Val::Empty),
                            Some(data) => typed(data, value_type),
                        };
                        match value {
                            Err(e) => Err(e),
                            Ok(value) => after(
                                seq![(key, value)],
                                entries_of(rest2, (n - 1) as nat, key_type, value_type),
                            ),
                        }
                    },
                },
            },
        }
    }
}

/// The elements of a tuple from the `k`-th on.
pub open spec fn tuple_of(s: Seq<u8>, types: Seq<u16>, k: nat) -> Result<
    Seq<Option<Val>>,
    CodecError,
>
    decreases s.len(), 0int,
{
    if k >= types.len() {
        Ok(Seq::empty())
    } else {
        match nullable_at(s, Part::TupleElement) {
            Err(e) => Err(e),
            Ok((item, rest)) => {
                let element = match item {
                    None => Ok(None),
                    Some(data) => match typed(data, types[k as int]) {
                        Ok(v) => Ok(Some(v)),
                        Err(e) => Err(e),
                    },
                };
                match element {
                    Err(e) => Err(e),
                    Ok(v) => after(seq![v], tuple_of(rest, types, k + 1)),
                }
            },
        }
    }
}

/// The fields of a user-defined type from the `k`-th on.
pub open spec fn fields_of(s: Seq<u8>, infos: Seq<(Seq<char>, u16)>, k: nat) -> Result<
    Seq<(Seq<char>, Option<Val>)>,
    CodecError,
>
    decreases s.len(), 0int,
{
    if k >= infos.len() {
        Ok(Seq::empty())
    } else {
        match nullable_at(s, Part::UdtFieldValue) {
            Err(e) => Err(e),
            Ok((item, rest)) => {
                let field = match item {
                    None => Ok(None),
                    Some(data) => match typed(data, infos[k as int].1) {
                        Ok(v) => Ok(Some(v)),
                        Err(e) => Err(e),
                    },
                };
                match field {
                    Err(e) => Err(e),
                    Ok(v) => after(seq![(infos[k as int].0, v)], fields_of(rest, infos, k + 1)),
                }
            },
        }
    }
}

/// The value that bytes with a type code stand for. An unknown code gives a blob.
pub open spec fn typed(data: Seq<u8>, type_code: u16) -> Decoded
    decreases data.len(), 1int,
{
    let wrong = Decoded::Err(CodecError::InvalidLength(type_code, data.len() as usize));
    if type_code == 0x0001 {
        if valid_utf8(data) {
            Ok(Val::Ascii(decode_utf8(data)))
        } else {
            Err(CodecError::InvalidText(NativeType::Ascii))
        }
    } else if type_code == 0x0002 {
        match int_of(data) {
            Ok(n) => Ok(Val::BigInt(n)),
            Err(e) => Err(e),
        }
    } else if type_code == 0x0004 {
        if data.len() == 0 {
            Err(CodecError::EmptyBoolean)
        } else {
            Ok(Val::Boolean(data[0] != 0))
        }
    } else if type_code == 0x0005 {
        match int_of(data) {
            Ok(n) => Ok(Val::Counter(n)),
            Err(e) => Err(e),
        }
    } else if type_code == 0x0007 {
        if data.len() != 8 { wrong } else { Ok(Val::Double(un8(data) as u64)) }
    } else if type_code == 0x0008 {
        if data.len() != 4 { wrong } else { Ok(Val::Float(un4(data) as u32)) }
    } else if type_code == 0x0009 {
        match int_of(data) {
            Ok(n) => Ok(Val::Int(low_i32(n))),
            Err(e) => Err(e),
        }
    } else if type_code == 0x000B {
        match int_of(data) {
            Ok(n) => Ok(Val::Timestamp(n)),
            Err(e) => Err(e),
        }
    } else if type_code == 0x000C {
        if data.len() != 16 { wrong } else { Ok(Val::Uuid(data)) }
    } else if type_code == 0x000D {
        if valid_utf8(data) {
            Ok(Val::Text(decode_utf8(data)))
        } else {
            Err(CodecError::InvalidText(NativeType::Text))
        }
    } else if type_code == 0x000F {
        if data.len() != 16 { wrong } else { Ok(Val::Timeuuid(data)) }
    } else if type_code == 0x0010 {
        if data.len() != 4 && data.len() != 16 { wrong } else { Ok(Val::Inet(data)) }
    } else if type_code == 0x0011 {
        if data.len() != 4 { wrong } else { Ok(Val::Date(un4(data) as u32)) }
    } else if type_code == 0x0012 {
        if data.len() != 8 { wrong } else { Ok(Val::Time(signed8(un8(data)) as i64)) }
    } else if type_code == 0x0013 {
        match int_of(data) {
            Ok(n) => Ok(Val::SmallInt(low_i16(n))),
            Err(e) => Err(e),
        }
    } else if type_code == 0x0014 {
        match int_of(data) {
            Ok(n) => Ok(Val::TinyInt(low_i8(n))),
            Err(e) => Err(e),
        }
    } else if type_code == 0x0020 {
        match list_head_at(data) {
            Err(e) => Err(e),
            Ok(((subtype, dimension), s)) => match count_at(s) {
                Err(e) => Err(e),
                Ok((n, s)) => match elements_of(s, n, subtype, dimension, Part::ListElement) {
                    Ok(elements) => Ok(Val::List(elements)),
                    Err(e) => Err(e),
                },
            },
        }
    } else if type_code == 0x0030 {
        vector_of(data)
    } else if type_code == 0x0032 {
        packed_of(data)
    } else if type_code == 0x0021 {
        match short_at(data) {
            Err(e) => Err(e),
            Ok((key_type, s)) => match short_at(s) {
                Err(e) => Err(e),
                Ok((value_type, s)) => match count_at(s) {
                    Err(e) => Err(e),
                    Ok((n, s)) => match entries_of(s, n, key_type, value_type) {
                        Ok(entries) => Ok(Val::MapOf(entries)),
                        Err(e) => Err(e),
                    },
                },
            },
        }
    } else if type_code == 0x0022 {
        match short_at(data) {
            Err(e) => Err(e),
            Ok((subtype, s)) => match count_at(s) {
                Err(e) => Err(e),
                Ok((n, s)) => match elements_of(s, n, subtype, None, Part::SetElement) {
                    Ok(elements) => Ok(Val::SetOf(elements)),
                    Err(e) => Err(e),
                },
            },
        }
    } else if type_code == 0x0031 {
        match short_at(data) {
            Err(e) => Err(e),
            Ok((n, s)) => {
                proof {
                    lemma_shorts_at_len(s, n as nat);
                }
                match shorts_at(s, n as nat) {
                    Err(e) => Err(e),
                    Ok((types, s)) => match tuple_of(s, types, 0) {
                        Ok(elements) => Ok(Val::Tuple(elements)),
                        Err(e) => Err(e),
                    },
                }
            },
        }
    } else if type_code == 0x0040 {
        match short_at(data) {
            Err(e) => Err(e),
            Ok((n, s)) => {
                proof {
                    lemma_field_infos_at_len(s, n as nat);
                }
                match field_infos_at(s, n as nat) {
                    Err(e) => Err(e),
                    Ok((infos, s)) => match fields_of(s, infos, 0) {
                        Ok(fields) => Ok(Val::Udt(""@, "udt"@, fields)),
                        Err(e) => Err(e),
                    },
                }
            },
        }
    } else {
        Ok(Val::Blob(data))
    }
}

/// Reading types leaves fewer bytes.
pub proof fn lemma_shorts_at_len(s: Seq<u8>, n: nat)
    ensures
        shorts_at(s, n) matches Ok((types, rest)) ==> types.len() == n && rest.len() + 2 * n
            == s.len(),
    decreases n,
{
    if n > 0 {
        if let Ok((first, s2)) = short_at(s) {
            lemma_shorts_at_len(s2, (n - 1) as nat);
        }
    }
}

/// Reading field names and types leaves no more bytes.
pub proof fn lemma_field_infos_at_len(s: Seq<u8>, n: nat)
    ensures
        field_infos_at(s, n) matches Ok((infos, rest)) ==> infos.len() == n && rest.len()
            <= s.len(),
    decreases n,
{
    if n > 0 {
        if let Ok((first, s2)) = field_info_at(s) {
            lemma_field_infos_at_len(s2, (n - 1) as nat);
        }
    }
}

/// Reads an integer of one, two, four or eight bytes.
pub fn read_int_flexible(data: &[u8]) -> (r: Result<i64, CodecError>)
    ensures
        r == int_of(data@),
{
    match data.len() {
        1 => Ok(to_i8(data[0]) as i64),
        2 => Ok(to_i16(read_be2(data)) as i64),
        4 => Ok(to_i32(read_be4(data)) as i64),
        8 => Ok(to_i64(read_be8(data))),
        len => Err(CodecError::IntegerLength(len)),
    }
}

/// The lower 16 bits of a number, read as a signed one.
fn wrap_i16(n: i64) -> (r: i16)
    ensures
        r == low_i16(n),
{
    if n >= 0 {
        to_i16((n as u64 % 0x1_0000) as u16)
    } else {
        let below: u64 = (-(n + 1)) as u64;
        let low: u16 = 0xFFFF - (below % 0x1_0000) as u16;
        assert(low == n as int % 0x1_0000);
        to_i16(low)
    }
}

/// The lower 8 bits of a number, read as a signed one.
fn wrap_i8(n: i64) -> (r: i8)
    ensures
        r == low_i8(n),
{
    if n >= 0 {
        to_i8((n as u64 % 0x100) as u8)
    } else {
        let below: u64 = (-(n + 1)) as u64;
        let low: u8 = 0xFF - (below % 0x100) as u8;
        assert(low == n as int % 0x100);
        to_i8(low)
    }
}

/// Reads types.
fn read_types(slice: &mut &[u8], n: usize) -> (r: Result<Vec<u16>, CodecError>)
    ensures
        match shorts_at(old(slice)@, n as nat) {
            Ok((types, rest)) => r is Ok && r->Ok_0@ == types && final(slice)@ == rest,
            Err(e) => r == Err::<Vec<u16>, CodecError>(e),
        },
{
    let mut types: Vec<u16> = Vec::new();
    let mut i: usize = 0;
    let ghost start = slice@;
    proof {
        lemma_after_at(Seq::<u16>::empty(), 0, shorts_at(start, n as nat), start);
    }
    while i < n
        invariant
            i <= n,
            start == old(slice)@,
            shorts_at(start, n as nat) == after_at(types@, shorts_at(slice@, (n - i) as nat)),
        decreases n - i,
    {
        let code: u16 = match read_short(slice) {
            Ok(code) => code,
            Err(e) => {
                return Err(e);
            },
        };
        proof {
            lemma_after_at(types@, code, shorts_at(slice@, (n - i - 1) as nat), start);
        }
        types.push(code);
        i = i + 1;
    }
    proof {
        lemma_after_at(types@, 0, shorts_at(start, n as nat), slice@);
    }
    Ok(types)
}

/// The names and types that a sequence of pairs stands for.
pub open spec fn infos_of(s: Seq<(String, u16)>) -> Seq<(Seq<char>, u16)> {
    s.map_values(|f: (String, u16)| (f.0@, f.1))
}

/// Reads the name and type of a field.
fn read_field_info(slice: &mut &[u8]) -> (r: Result<(String, u16), CodecError>)
    ensures
        match field_info_at(old(slice)@) {
            Ok((info, rest)) => r is Ok && (r->Ok_0.0@, r->Ok_0.1) == info && final(slice)@ == rest,
            Err(e) => r == Err::<(String, u16), CodecError>(e),
        },
{
    let len: u16 = match read_short(slice) {
        Ok(len) => len,
        Err(e) => {
            return Err(e);
        },
    };
    let name: &[u8] = match read_data(slice, len as usize, Part::UdtFieldName) {
        Ok(name) => name,
        Err(e) => {
            return Err(e);
        },
    };
    let name: String = from_utf8_lossy(name);
    match read_short(slice) {
        Ok(code) => Ok((name, code)),
        Err(e) => Err(e),
    }
}

/// Reads the names and types of fields.
fn read_field_infos(slice: &mut &[u8], n: usize) -> (r: Result<Vec<(String, u16)>, CodecError>)
    ensures
        match field_infos_at(old(slice)@, n as nat) {
            Ok((infos, rest)) => r is Ok && infos_of(r->Ok_0@) == infos && final(slice)@ == rest,
            Err(e) => r == Err::<Vec<(String, u16)>, CodecError>(e),
        },
{
    let mut infos: Vec<(String, u16)> = Vec::new();
    let mut i: usize = 0;
    let ghost start = slice@;
    proof {
        assert(infos_of(infos@) =~= Seq::empty());
        lemma_after_at(
            Seq::<(Seq<char>, u16)>::empty(),
            (Seq::empty(), 0),
            field_infos_at(start, n as nat),
            start,
        );
    }
    while i < n
        invariant
            i <= n,
            start == old(slice)@,
            field_infos_at(start, n as nat) == after_at(
                infos_of(infos@),
                field_infos_at(slice@, (n - i) as nat),
            ),
        decreases n - i,
    {
        let ghost done = infos_of(infos@);
        let info: (String, u16) = match read_field_info(slice) {
            Ok(info) => info,
            Err(e) => {
                return Err(e);
            },
        };
        proof {
            lemma_after_at(
                done,
                (info.0@, info.1),
                field_infos_at(slice@, (n - i - 1) as nat),
                start,
            );
            assert(infos_of(infos@.push(info)) =~= done.push((info.0@, info.1)));
        }
        infos.push(info);
        i = i + 1;
    }
    proof {
        lemma_after_at(
            infos_of(infos@),
            (Seq::empty(), 0),
            field_infos_at(start, n as nat),
            slice@,
        );
    }
    Ok(infos)
}

/// Decodes a bare vector of floats.
fn decode_float_vector(data: &[u8], dimension: u16, kind: VectorKind) -> (r: Result<
    CqlValue,
    CodecError,
>)
    ensures
        did_decode(float_vector_of(data@, dimension as nat, kind), r),
{
    let expected: usize = dimension as usize * 4;
    if data.len() != expected {
        return Err(CodecError::VectorSizeMismatch(kind, expected as u64, data.len()));
    }
    Ok(CqlValue::Vector(read_floats(data, dimension as usize)))
}

/// Decodes a vector.
fn decode_vector(data: &[u8]) -> (r: Result<CqlValue, CodecError>)
    ensures
        did_decode(vector_of(data@), r),
{
    let mut slice: &[u8] = data;
    let subtype: u16 = match read_short(&mut slice) {
        Ok(v) => v,
        Err(e) => {
            return Err(e);
        },
    };
    let dimension: u16 = match read_short(&mut slice) {
        Ok(v) => v,
        Err(e) => {
            return Err(e);
        },
    };
    if subtype != 0x0008 {
        return Err(CodecError::VectorSubtype(subtype));
    }
    decode_float_vector(slice, dimension, VectorKind::Value)
}

/// Decodes a packed list of float vectors.
fn decode_packed(data: &[u8]) -> (r: Result<CqlValue, CodecError>)
    ensures
        did_decode(packed_of(data@), r),
{
    let mut slice: &[u8] = data;
    let n: usize = match read_count(&mut slice) {
        Ok(v) => v,
        Err(e) => {
            return Err(e);
        },
    };
    let dimension: u16 = match read_short(&mut slice) {
        Ok(v) => v,
        Err(e) => {
            return Err(e);
        },
    };
    let stride: u64 = dimension as u64 * 4;
    assert(n <= 0x7FFF_FFFF);
    assert(n * stride <= 0x7FFF_FFFF * 0x4_0000) by (nonlinear_arith)
        requires
            n <= 0x7FFF_FFFF,
            stride <= 0x4_0000,
    ;
    let expected: u64 = n as u64 * stride;
    let len: usize = slice.len();
    if len as u64 != expected {
        return Err(
            CodecError::VectorSizeMismatch(VectorKind::Packed(n, dimension), expected, len),
        );
    }
    let stride: usize = stride as usize;
    let mut vectors: Vec<CqlValue> = Vec::new();
    let mut i: usize = 0;
    while i < n
        invariant
            i <= n,
            stride == dimension * 4,
            len == slice@.len(),
            len == n * stride,
            vectors@.len() == i,
            forall|j: int|
                0 <= j < i ==> (#[trigger] vectors@[j])@ == Val::Vector(
                    float_vals(slice@.skip(j * (dimension * 4)), dimension as nat),
                ),
        decreases n - i,
    {
        assert(i * stride + stride <= n * stride) by (nonlinear_arith)
            requires
                i + 1 <= n,
        ;
        assert(i * stride >= 0) by (nonlinear_arith);
        let start: usize = i * stride;
        let (_, tail): (&[u8], &[u8]) = slice.split_at(start);
        assert(tail@ =~= slice@.skip(i * (dimension * 4)));
        vectors.push(CqlValue::Vector(read_floats(tail, dimension as usize)));
        i = i + 1;
    }
    assert(vals(vectors@) =~= packed_vectors(slice@, n as nat, dimension as nat));
    Ok(CqlValue::List(vectors))
}

/// Decodes the elements of a list or set.
fn decode_elements(
    data: &[u8],
    n: usize,
    subtype: u16,
    dimension: Option<u16>,
    part: Part,
) -> (r: Result<Vec<CqlValue>, CodecError>)
    ensures
        match elements_of(data@, n as nat, subtype, opt_nat(dimension), part) {
            Ok(elements) => r is Ok && vals(r->Ok_0@) == elements,
            Err(e) => r == Err::<Vec<CqlValue>, CodecError>(e),
        },
    decreases data@.len(), 0int,
{
    let ghost d = opt_nat(dimension);
    let mut slice: &[u8] = data;
    let ghost all = elements_of(data@, n as nat, subtype, d, part);
    let mut elements: Vec<CqlValue> = Vec::new();
    let mut i: usize = 0;
    proof {
        lemma_after(Seq::empty(), Seq::empty(), all);
        assert(vals(elements@) =~= Seq::empty());
    }
    while i < n
        invariant
            i <= n,
            slice@.len() <= data@.len(),
            d == opt_nat(dimension),
            all == elements_of(data@, n as nat, subtype, d, part),
            all == after(
                vals(elements@),
                elements_of(slice@, (n - i) as nat, subtype, d, part),
            ),
        decreases n - i,
    {
        let ghost done = vals(elements@);
        match read_nullable(&mut slice, part) {
            Err(e) => {
                return Err(e);
            },
            Ok(None) => {},
            Ok(Some(item)) => {
                let decoded: Result<CqlValue, CodecError> = match dimension {
                    Some(dimension) => decode_float_vector(item, dimension, VectorKind::Element),
                    None => decode_typed_value_by_code(item, subtype),
                };
                match decoded {
                    Err(e) => {
                        return Err(e);
                    },
                    Ok(v) => {
                        proof {
                            lemma_vals_push(elements@, v);
                            lemma_after(
                                done,
                                seq![v@],
                                elements_of(slice@, (n - i - 1) as nat, subtype, d, part),
                            );
                            assert(done.push(v@) =~= done + seq![v@]);
                        }
                        elements.push(v);
                    },
                }
            },
        }
        i = i + 1;
    }
    proof {
        lemma_after(vals(elements@), Seq::empty(), all);
    }
    Ok(elements)
}

/// An optional dimension as a number.
pub open spec fn opt_nat(n: Option<u16>) -> Option<nat> {
    match n {
        Some(n) => Some(n as nat),
        None => None,
    }
}

/// Decodes the entries of a map.
fn decode_entries(data: &[u8], n: usize, key_type: u16, value_type: u16) -> (r: Result<
    Vec<(CqlValue, CqlValue)>,
    CodecError,
>)
    ensures
        match entries_of(data@, n as nat, key_type, value_type) {
            Ok(entries) => r is Ok && entry_vals(r->Ok_0@) == entries,
            Err(e) => r == Err::<Vec<(CqlValue, CqlValue)>, CodecError>(e),
        },
    decreases data@.len(), 0int,
{
    let mut slice: &[u8] = data;
    let ghost all = entries_of(data@, n as nat, key_type, value_type);
    let mut entries: Vec<(CqlValue, CqlValue)> = Vec::new();
    let mut i: usize = 0;
    proof {
        lemma_after(Seq::empty(), Seq::empty(), all);
        assert(entry_vals(entries@) =~= Seq::empty());
    }
    while i < n
        invariant
            i <= n,
            slice@.len() <= data@.len(),
            all == entries_of(data@, n as nat, key_type, value_type),
            all == after(
                entry_vals(entries@),
                entries_of(slice@, (n - i) as nat, key_type, value_type),
            ),
        decreases n - i,
    {
        let ghost done = entry_vals(entries@);
        let key: CqlValue = match read_nullable(&mut slice, Part::MapKey) {
            Err(e) => {
                return Err(e);
            },
            Ok(None) => {
                return Err(CodecError::NullMapKey);
            },
            Ok(Some(item)) => match decode_typed_value_by_code(item, key_type) {
                Err(e) => {
                    return Err(e);
                },
                Ok(v) => v,
            },
        };
        let value: CqlValue = match read_nullable(&mut slice, Part::MapValue) {
            Err(e) => {
                return Err(e);
            },
            Ok(None) => CqlValue::Empty,
            Ok(Some(item)) => match decode_typed_value_by_code(item, value_type) {
                Err(e) => {
                    return Err(e);
                },
                Ok(v) => v,
            },
        };
        proof {
            lemma_entry_vals_push(entries@, (key, value));
            lemma_after(
                done,
                seq![(key@, value@)],
                entries_of(slice@, (n - i - 1) as nat, key_type, value_type),
            );
            assert(done.push((key@, value@)) =~= done + seq![(key@, value@)]);
        }
        entries.push((key, value));
        i = i + 1;
    }
    proof {
        lemma_after(entry_vals(entries@), Seq::empty(), all);
    }
    Ok(entries)
}

/// Decodes the elements of a tuple.
fn decode_tuple(data: &[u8], types: &Vec<u16>) -> (r: Result<Vec<Option<CqlValue>>, CodecError>)
    ensures
        match tuple_of(data@, types@, 0) {
            Ok(elements) => r is Ok && opt_vals(r->Ok_0@) == elements,
            Err(e) => r == Err::<Vec<Option<CqlValue>>, CodecError>(e),
        },
    decreases data@.len(), 0int,
{
    let mut slice: &[u8] = data;
    let ghost all = tuple_of(data@, types@, 0);
    let mut elements: Vec<Option<CqlValue>> = Vec::new();
    let mut k: usize = 0;
    proof {
        lemma_after(Seq::empty(), Seq::empty(), all);
        assert(opt_vals(elements@) =~= Seq::empty());
    }
    while k < types.len()
        invariant
            k <= types@.len(),
            slice@.len() <= data@.len(),
            all == tuple_of(data@, types@, 0),
            all == after(opt_vals(elements@), tuple_of(slice@, types@, k as nat)),
        decreases types@.len() - k,
    {
        let ghost done = opt_vals(elements@);
        let element: Option<CqlValue> = match read_nullable(&mut slice, Part::TupleElement) {
            Err(e) => {
                return Err(e);
            },
            Ok(None) => None,
            Ok(Some(item)) => match decode_typed_value_by_code(item, types[k]) {
                Err(e) => {
                    return Err(e);
                },
                Ok(v) => Some(v),
            },
        };
        proof {
            lemma_opt_vals_push(elements@, element);
            lemma_after(
                done,
                seq![opt_val(element)],
                tuple_of(slice@, types@, (k + 1) as nat),
            );
            assert(done.push(opt_val(element)) =~= done + seq![opt_val(element)]);
        }
        elements.push(element);
        k = k + 1;
    }
    proof {
        lemma_after(opt_vals(elements@), Seq::empty(), all);
    }
    Ok(elements)
}

/// Decodes the fields of a user-defined type.
fn decode_fields(data: &[u8], infos: &Vec<(String, u16)>) -> (r: Result<
    Vec<(String, Option<CqlValue>)>,
    CodecError,
>)
    ensures
        match fields_of(data@, infos_of(infos@), 0) {
            Ok(fields) => r is Ok && field_vals(r->Ok_0@) == fields,
            Err(e) => r == Err::<Vec<(String, Option<CqlValue>)>, CodecError>(e),
        },
    decreases data@.len(), 0int,
{
    let mut slice: &[u8] = data;
    let ghost ii = infos_of(infos@);
    let ghost all = fields_of(data@, ii, 0);
    let mut fields: Vec<(String, Option<CqlValue>)> = Vec::new();
    let mut k: usize = 0;
    proof {
        lemma_after(Seq::empty(), Seq::empty(), all);
        assert(field_vals(fields@) =~= Seq::empty());
    }
    while k < infos.len()
        invariant
            k <= infos@.len(),
            slice@.len() <= data@.len(),
            ii == infos_of(infos@),
            all == fields_of(data@, ii, 0),
            all == after(field_vals(fields@), fields_of(slice@, ii, k as nat)),
        decreases infos@.len() - k,
    {
        let ghost done = field_vals(fields@);
        assert(ii[k as int] == (infos@[k as int].0@, infos@[k as int].1));
        let field: Option<CqlValue> = match read_nullable(&mut slice, Part::UdtFieldValue) {
            Err(e) => {
                return Err(e);
            },
            Ok(None) => None,
            Ok(Some(item)) => match decode_typed_value_by_code(item, infos[k].1) {
                Err(e) => {
                    return Err(e);
                },
                Ok(v) => Some(v),
            },
        };
        let name: String = infos[k].0.clone();
        proof {
            lemma_field_vals_push(fields@, (name, field));
            lemma_after(
                done,
                seq![(name@, opt_val(field))],
                fields_of(slice@, ii, (k + 1) as nat),
            );
            assert(done.push((name@, opt_val(field))) =~= done + seq![(name@, opt_val(field))]);
        }
        fields.push((name, field));
        k = k + 1;
    }
    proof {
        lemma_after(field_vals(fields@), Seq::empty(), all);
    }
    Ok(fields)
}

/// Decodes a list.
fn decode_list(data: &[u8]) -> (r: Result<CqlValue, CodecError>)
    ensures
        did_decode(typed(data@, 0x0020), r),
    decreases data@.len(), 1int,
{
    let mut slice: &[u8] = data;
    let subtype: u16 = match read_short(&mut slice) {
        Ok(v) => v,
        Err(e) => {
            return Err(e);
        },
    };
    let dimension: Option<u16> = if subtype == 0x0030 {
        let element: u16 = match read_short(&mut slice) {
            Ok(v) => v,
            Err(e) => {
                return Err(e);
            },
        };
        match read_short(&mut slice) {
            Ok(dimension) => if element == 0x0008 {
                Some(dimension)
            } else {
                None
            },
            Err(e) => {
                return Err(e);
            },
        }
    } else {
        None
    };
    let n: usize = match read_count(&mut slice) {
        Ok(v) => v,
        Err(e) => {
            return Err(e);
        },
    };
    match decode_elements(slice, n, subtype, dimension, Part::ListElement) {
        Ok(elements) => Ok(CqlValue::List(elements)),
        Err(e) => Err(e),
    }
}

/// Decodes a set.
fn decode_set(data: &[u8]) -> (r: Result<CqlValue, CodecError>)
    ensures
        did_decode(typed(data@, 0x0022), r),
    decreases data@.len(), 1int,
{
    let mut slice: &[u8] = data;
    let subtype: u16 = match read_short(&mut slice) {
        Ok(v) => v,
        Err(e) => {
            return Err(e);
        },
    };
    let n: usize = match read_count(&mut slice) {
        Ok(v) => v,
        Err(e) => {
            return Err(e);
        },
    };
    match decode_elements(slice, n, subtype, None, Part::SetElement) {
        Ok(elements) => Ok(CqlValue::SetOf(elements)),
        Err(e) => Err(e),
    }
}

/// Decodes a map.
fn decode_map(data: &[u8]) -> (r: Result<CqlValue, CodecError>)
    ensures
        did_decode(typed(data@, 0x0021), r),
    decreases data@.len(), 1int,
{
    let mut slice: &[u8] = data;
    let key_type: u16 = match read_short(&mut slice) {
        Ok(v) => v,
        Err(e) => {
            return Err(e);
        },
    };
    let value_type: u16 = match read_short(&mut slice) {
        Ok(v) => v,
        Err(e) => {
            return Err(e);
        },
    };
    let n: usize = match read_count(&mut slice) {
        Ok(v) => v,
        Err(e) => {
            return Err(e);
        },
    };
    match decode_entries(slice, n, key_type, value_type) {
        Ok(entries) => Ok(CqlValue::MapOf(entries)),
        Err(e) => Err(e),
    }
}

/// Decodes a tuple.
fn decode_tuple_value(data: &[u8]) -> (r: Result<CqlValue, CodecError>)
    ensures
        did_decode(typed(data@, 0x0031), r),
    decreases data@.len(), 1int,
{
    let mut slice: &[u8] = data;
    let n: u16 = match read_short(&mut slice) {
        Ok(v) => v,
        Err(e) => {
            return Err(e);
        },
    };
    proof {
        lemma_shorts_at_len(slice@, n as nat);
    }
    let types: Vec<u16> = match read_types(&mut slice, n as usize) {
        Ok(v) => v,
        Err(e) => {
            return Err(e);
        },
    };
    match decode_tuple(slice, &types) {
        Ok(elements) => Ok(CqlValue::Tuple(elements)),
        Err(e) => Err(e),
    }
}

/// Decodes a value of a user-defined type. Its name is not sent.
fn decode_udt(data: &[u8]) -> (r: Result<CqlValue, CodecError>)
    ensures
        did_decode(typed(data@, 0x0040), r),
    decreases data@.len(), 1int,
{
    let mut slice: &[u8] = data;
    let n: u16 = match read_short(&mut slice) {
        Ok(v) => v,
        Err(e) => {
            return Err(e);
        },
    };
    proof {
        lemma_field_infos_at_len(slice@, n as nat);
    }
    let infos: Vec<(String, u16)> = match read_field_infos(&mut slice, n as usize) {
        Ok(v) => v,
        Err(e) => {
            return Err(e);
        },
    };
    match decode_fields(slice, &infos) {
        Ok(fields) => Ok(
            CqlValue::UserDefinedType { keyspace: "".to_owned(), name: "udt".to_owned(), fields },
        ),
        Err(e) => Err(e),
    }
}

/// Decodes a value by its type code.
pub fn decode_typed_value_by_code(data: &[u8], type_code: u16) -> (r: Result<CqlValue, CodecError>)
    ensures
        did_decode(typed(data@, type_code), r),
    decreases data@.len(), 2int,
{
    let len: usize = data.len();
    let wrong: CodecError = CodecError::InvalidLength(type_code, len);
    match type_code {
        0x0001 => match from_utf8(data) {
            Some(text) => Ok(CqlValue::Ascii(text)),
            None => Err(CodecError::InvalidText(NativeType::Ascii)),
        },
        0x0002 => match read_int_flexible(data) {
            Ok(n) => Ok(CqlValue::BigInt(n)),
            Err(e) => Err(e),
        },
        0x0003 => Ok(CqlValue::Blob(copy_bytes(data))),
        0x0004 => if len == 0 {
            Err(CodecError::EmptyBoolean)
        } else {
            Ok(CqlValue::Boolean(data[0] != 0))
        },
        0x0005 => match read_int_flexible(data) {
            Ok(n) => Ok(CqlValue::Counter(n)),
            Err(e) => Err(e),
        },
        0x0007 => if len != 8 {
            Err(wrong)
        } else {
            Ok(CqlValue::Double(read_be8(data)))
        },
        0x0008 => if len != 4 {
            Err(wrong)
        } else {
            Ok(CqlValue::Float(read_be4(data)))
        },
        0x0009 => match read_int_flexible(data) {
            Ok(n) => Ok(CqlValue::Int(wrap_i32(n))),
            Err(e) => Err(e),
        },
        0x000B => match read_int_flexible(data) {
            Ok(n) => Ok(CqlValue::Timestamp(n)),
            Err(e) => Err(e),
        },
        0x000C => if len != 16 {
            Err(wrong)
        } else {
            Ok(CqlValue::Uuid(array16(data)))
        },
        0x000D => match from_utf8(data) {
            Some(text) => Ok(CqlValue::Text(text)),
            None => Err(CodecError::InvalidText(NativeType::Text)),
        },
        0x000F => if len != 16 {
            Err(wrong)
        } else {
            Ok(CqlValue::Timeuuid(array16(data)))
        },
        0x0010 => if len == 4 {
            Ok(CqlValue::Inet(IpAddr::V4(array4(data))))
        } else if len == 16 {
            Ok(CqlValue::Inet(IpAddr::V6(array16(data))))
        } else {
            Err(wrong)
        },
        0x0011 => if len != 4 {
            Err(wrong)
        } else {
            Ok(CqlValue::Date(read_be4(data)))
        },
        0x0012 => if len != 8 {
            Err(wrong)
        } else {
            Ok(CqlValue::Time(to_i64(read_be8(data))))
        },
        0x0013 => match read_int_flexible(data) {
            Ok(n) => Ok(CqlValue::SmallInt(wrap_i16(n))),
            Err(e) => Err(e),
        },
        0x0014 => match read_int_flexible(data) {
            Ok(n) => Ok(CqlValue::TinyInt(wrap_i8(n))),
            Err(e) => Err(e),
        },
        0x0020 => decode_list(data),
        0x0021 => decode_map(data),
        0x0022 => decode_set(data),
        0x0030 => decode_vector(data),
        0x0031 => decode_tuple_value(data),
        0x0032 => decode_packed(data),
        0x0040 => decode_udt(data),
        _ => Ok(CqlValue::Blob(copy_bytes(data))),
    }
}

} // verus!
