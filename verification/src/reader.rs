//! Reading numbers, strings and length-prefixed data off the front of a slice.
//!
//! A spec function named `.._at` says what a reader finds at the front of the
//! bytes: the value and the bytes behind it, or an error. One named `.._left`
//! says which bytes are left when there is an error: a number that is cut off
//! stays where it is, and a length that was read is gone.

use crate::error::{CodecError, Part};
use crate::text::{from_utf8, from_utf8_lossy, utf8_lossy};
use crate::wire::{
    be2, be4, be8, lemma_un, read_be2, read_be4, read_be8, signed4, to_i32, un2, un4, un8,
};
use vstd::prelude::*;
use vstd::utf8::{decode_utf8, encode_utf8, valid_utf8};

verus! {

broadcast use crate::wire::group_be;

/// What is found at the front of bytes: a value and the bytes behind it.
pub type At<T> = Result<(T, Seq<u8>), CodecError>;

/// The 16-bit number at the front.
pub open spec fn short_at(s: Seq<u8>) -> At<u16> {
    if s.len() < 2 {
        Err(CodecError::UnexpectedEof(Part::Short))
    } else {
        Ok((un2(s) as u16, s.skip(2)))
    }
}

/// The signed 32-bit number at the front.
pub open spec fn int_at(s: Seq<u8>) -> At<i32> {
    if s.len() < 4 {
        Err(CodecError::UnexpectedEof(Part::Int))
    } else {
        Ok((signed4(un4(s)) as i32, s.skip(4)))
    }
}

/// The unsigned 64-bit number at the front.
pub open spec fn long_at(s: Seq<u8>) -> At<u64> {
    if s.len() < 8 {
        Err(CodecError::UnexpectedEof(Part::Long))
    } else {
        Ok((un8(s) as u64, s.skip(8)))
    }
}

/// The first `n` bytes.
pub open spec fn data_at(s: Seq<u8>, n: nat, part: Part) -> At<Seq<u8>> {
    if s.len() < n {
        Err(CodecError::UnexpectedEof(part))
    } else {
        Ok((s.take(n as int), s.skip(n as int)))
    }
}

/// Data behind its 32-bit length; a negative length stands for a null.
pub open spec fn nullable_at(s: Seq<u8>, part: Part) -> At<Option<Seq<u8>>> {
    match int_at(s) {
        Ok((len, rest)) => if len < 0 {
            Ok((None, rest))
        } else {
            match data_at(rest, len as nat, part) {
                Ok((data, rest)) => Ok((Some(data), rest)),
                Err(e) => Err(e),
            }
        },
        Err(e) => Err(e),
    }
}

/// The bytes of a string behind its 16-bit length.
pub open spec fn string_bytes_at(s: Seq<u8>) -> At<Seq<u8>> {
    match short_at(s) {
        Ok((len, rest)) => data_at(rest, len as nat, Part::StringBody),
        Err(e) => Err(e),
    }
}

/// The string behind its 16-bit length, decoded leniently.
pub open spec fn lossy_string_at(s: Seq<u8>) -> At<Seq<char>> {
    match string_bytes_at(s) {
        Ok((data, rest)) => Ok((utf8_lossy(data), rest)),
        Err(e) => Err(e),
    }
}

/// The string behind its 16-bit length, which must be UTF-8.
pub open spec fn string_at(s: Seq<u8>) -> At<Seq<char>> {
    match string_bytes_at(s) {
        Ok((data, rest)) => if valid_utf8(data) {
            Ok((decode_utf8(data), rest))
        } else {
            Err(CodecError::InvalidUtf8)
        },
        Err(e) => Err(e),
    }
}

/// The bytes that are left when data behind a 32-bit length are cut off.
pub open spec fn nullable_left(s: Seq<u8>) -> Seq<u8> {
    if s.len() < 4 {
        s
    } else {
        s.skip(4)
    }
}

/// The bytes that are left when a string behind a 16-bit length cannot be
/// read: behind the length where the string is cut off, and behind the string
/// where it is no UTF-8.
pub open spec fn string_left(s: Seq<u8>) -> Seq<u8> {
    if s.len() < 2 {
        s
    } else if s.len() < 2 + un2(s) {
        s.skip(2)
    } else {
        s.skip(2 + un2(s))
    }
}

/// A reader that met `result` found what `at` says, and stands behind it.
pub open spec fn did_read<T>(at: At<T>, result: Result<T, CodecError>, now: Seq<u8>) -> bool {
    match at {
        Ok((v, rest)) => result == Ok::<T, CodecError>(v) && now == rest,
        Err(e) => result == Err::<T, CodecError>(e),
    }
}

/// As `did_read`, for a string.
pub open spec fn did_read_string(
    at: At<Seq<char>>,
    result: Result<String, CodecError>,
    now: Seq<u8>,
) -> bool {
    match at {
        Ok((v, rest)) => result is Ok && result->Ok_0@ == v && now == rest,
        Err(e) => result == Err::<String, CodecError>(e),
    }
}

/// As `did_read`, for a slice.
pub open spec fn did_read_data(
    at: At<Seq<u8>>,
    result: Result<&[u8], CodecError>,
    now: Seq<u8>,
) -> bool {
    match at {
        Ok((v, rest)) => result is Ok && result->Ok_0@ == v && now == rest,
        Err(e) => result == Err::<&[u8], CodecError>(e),
    }
}

/// As `did_read`, for data that may be null.
pub open spec fn did_read_nullable(
    at: At<Option<Seq<u8>>>,
    result: Result<Option<&[u8]>, CodecError>,
    now: Seq<u8>,
) -> bool {
    match at {
        Ok((Some(v), rest)) => result is Ok && result->Ok_0 is Some && result->Ok_0->0@ == v
            && now == rest,
        Ok((None, rest)) => result is Ok && result->Ok_0 is None && now == rest,
        Err(e) => result == Err::<Option<&[u8]>, CodecError>(e),
    }
}

/// Reads a 16-bit number.
pub fn read_short(slice: &mut &[u8]) -> (r: Result<u16, CodecError>)
    ensures
        did_read(short_at(old(slice)@), r, final(slice)@),
        r is Err ==> final(slice)@ == old(slice)@,
{
    if slice.len() < 2 {
        return Err(CodecError::UnexpectedEof(Part::Short));
    }
    let (head, rest): (&[u8], &[u8]) = slice.split_at(2);
    let n: u16 = read_be2(head);
    *slice = rest;
    Ok(n)
}

/// Reads a signed 32-bit number.
pub fn read_int(slice: &mut &[u8]) -> (r: Result<i32, CodecError>)
    ensures
        did_read(int_at(old(slice)@), r, final(slice)@),
        r is Err ==> final(slice)@ == old(slice)@,
{
    if slice.len() < 4 {
        return Err(CodecError::UnexpectedEof(Part::Int));
    }
    let (head, rest): (&[u8], &[u8]) = slice.split_at(4);
    let n: i32 = to_i32(read_be4(head));
    *slice = rest;
    Ok(n)
}

/// Reads an unsigned 64-bit number.
pub fn read_long(slice: &mut &[u8]) -> (r: Result<u64, CodecError>)
    ensures
        did_read(long_at(old(slice)@), r, final(slice)@),
        r is Err ==> final(slice)@ == old(slice)@,
{
    if slice.len() < 8 {
        return Err(CodecError::UnexpectedEof(Part::Long));
    }
    let (head, rest): (&[u8], &[u8]) = slice.split_at(8);
    let n: u64 = read_be8(head);
    *slice = rest;
    Ok(n)
}

/// Takes the first `n` bytes.
pub fn read_data<'a>(slice: &mut &'a [u8], n: usize, part: Part) -> (r: Result<&'a [u8], CodecError>)
    ensures
        did_read_data(data_at(old(slice)@, n as nat, part), r, final(slice)@),
        r is Err ==> final(slice)@ == old(slice)@,
{
    if slice.len() < n {
        return Err(CodecError::UnexpectedEof(part));
    }
    let (head, rest): (&'a [u8], &'a [u8]) = slice.split_at(n);
    *slice = rest;
    Ok(head)
}

/// Reads data behind its 32-bit length, where a negative length stands for a null.
pub fn read_nullable<'a>(slice: &mut &'a [u8], part: Part) -> (r: Result<
    Option<&'a [u8]>,
    CodecError,
>)
    ensures
        did_read_nullable(nullable_at(old(slice)@, part), r, final(slice)@),
        r is Err ==> final(slice)@ == nullable_left(old(slice)@),
{
    let len: i32 = match read_int(slice) {
        Ok(len) => len,
        Err(e) => {
            return Err(e);
        },
    };
    if len < 0 {
        return Ok(None);
    }
    match read_data(slice, len as usize, part) {
        Ok(data) => Ok(Some(data)),
        Err(e) => Err(e),
    }
}

/// Takes the bytes of a string behind its 16-bit length.
pub fn read_string_bytes<'a>(slice: &mut &'a [u8]) -> (r: Result<&'a [u8], CodecError>)
    ensures
        did_read_data(string_bytes_at(old(slice)@), r, final(slice)@),
        r is Err ==> final(slice)@ == string_left(old(slice)@),
{
    let len: u16 = match read_short(slice) {
        Ok(len) => len,
        Err(e) => {
            return Err(e);
        },
    };
    read_data(slice, len as usize, Part::StringBody)
}

/// Reads a string behind its 16-bit length, replacing what is no UTF-8.
pub fn read_lossy_string(slice: &mut &[u8]) -> (r: Result<String, CodecError>)
    ensures
        did_read_string(lossy_string_at(old(slice)@), r, final(slice)@),
        r is Err ==> final(slice)@ == string_left(old(slice)@),
{
    match read_string_bytes(slice) {
        Ok(data) => Ok(from_utf8_lossy(data)),
        Err(e) => Err(e),
    }
}

/// Reads a string behind its 16-bit length.
pub fn read_utf8_string(slice: &mut &[u8]) -> (r: Result<String, CodecError>)
    ensures
        did_read_string(string_at(old(slice)@), r, final(slice)@),
        r is Err ==> final(slice)@ == string_left(old(slice)@),
{
    match read_string_bytes(slice) {
        Ok(data) => match from_utf8(data) {
            Some(text) => Ok(text),
            None => {
                let ghost s = old(slice)@;
                assert(s.skip(2).skip(un2(s)) =~= s.skip(2 + un2(s)));
                Err(CodecError::InvalidUtf8)
            },
        },
        Err(e) => Err(e),
    }
}

/// A number is read only where its bytes are there, and then these are its bytes.
pub proof fn law_numbers_are_read_whole(s: Seq<u8>)
    ensures
        match short_at(s) {
            Ok((n, rest)) => s == be2(n as int) + rest,
            Err(e) => s.len() < 2 && e == CodecError::UnexpectedEof(Part::Short),
        },
        match int_at(s) {
            Ok((n, rest)) => s == be4(n as int) + rest,
            Err(e) => s.len() < 4 && e == CodecError::UnexpectedEof(Part::Int),
        },
        match long_at(s) {
            Ok((n, rest)) => s == be8(n as int) + rest,
            Err(e) => s.len() < 8 && e == CodecError::UnexpectedEof(Part::Long),
        },
{
    lemma_un(s);
}

/// A text is read only where all its bytes are there: they are its length, the
/// bytes of the text, and those that are left.
pub proof fn law_text_is_read_whole(s: Seq<u8>)
    ensures
        match string_at(s) {
            Ok((t, rest)) => encode_utf8(t).len() <= 0xFFFF && s == be2(encode_utf8(t).len() as int)
                + encode_utf8(t) + rest,
            Err(CodecError::UnexpectedEof(_)) => s.len() < 2 || s.len() < 2 + un2(s),
            Err(_) => s.len() >= 2 + un2(s) && !valid_utf8(s.subrange(2, 2 + un2(s))),
        },
        match string_bytes_at(s) {
            Ok((data, rest)) => data.len() <= 0xFFFF && s == be2(data.len() as int) + data + rest,
            Err(_) => s.len() < 2 || s.len() < 2 + un2(s),
        },
{
    lemma_un(s);
    if let Ok((data, rest)) = string_bytes_at(s) {
        assert(s =~= be2(data.len() as int) + data + rest);
        assert(data =~= s.subrange(2, 2 + un2(s)));
        if valid_utf8(data) {
            vstd::utf8::decode_utf8_encode_utf8(data);
        }
    }
}

/// An item that may be null is read only where all its bytes are there; a
/// negative length stands for a null, and for nothing else.
pub proof fn law_item_is_read_whole(s: Seq<u8>, part: Part)
    ensures
        match nullable_at(s, part) {
            Ok((Some(data), rest)) => data.len() <= 0x7FFF_FFFF && s == be4(data.len() as int)
                + data + rest,
            Ok((None, rest)) => exists|n: int|
                -0x8000_0000 <= n < 0 && s == #[trigger] be4(n) + rest,
            Err(_) => s.len() < 4 || s.len() < 4 + signed4(un4(s)),
        },
{
    lemma_un(s);
    match nullable_at(s, part) {
        Ok((Some(data), rest)) => {
            assert(s =~= be4(data.len() as int) + data + rest);
        },
        Ok((None, rest)) => {
            assert(s == be4(signed4(un4(s))) + rest);
        },
        Err(_) => {},
    }
}

} // verus!
