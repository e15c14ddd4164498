//! How attributes, keys and items are written and read.

use super::attribute::{
    attr_list, attrs, blobs, set_attribute, with_attr, Attr, AttributeValue, Attrs, Item,
};
use crate::error::{CodecError, Part};
use crate::reader::{did_read, did_read_string, nullable_left, At};
use crate::text::{from_utf8_lossy, lemma_texts_push, texts, utf8_lossy};
use crate::wire::{
    be2, be4, low_u16, low_u32, mut_contents, put_slice, put_u16, put_u32, put_u8, read_be2,
    read_be4, read_be8, signed8, to_i64, un2, un4, un8,
};
use bytes::BytesMut;
use vstd::prelude::*;
use vstd::slice::slice_to_vec;
use vstd::string::*;
use vstd::utf8::encode_utf8;

verus! {

broadcast use crate::wire::group_be;

/// Bytes behind their number.
pub open spec fn blob_bytes(b: Seq<u8>) -> Seq<u8> {
    be4(b.len() as int) + b
}

/// A text behind the number of its bytes.
pub open spec fn text_bytes(s: Seq<char>) -> Seq<u8> {
    blob_bytes(encode_utf8(s))
}

/// Texts, one behind the other.
pub open spec fn all_texts(s: Seq<Seq<char>>) -> Seq<u8>
    decreases s.len(),
{
    if s.len() == 0 {
        Seq::empty()
    } else {
        text_bytes(s[0]) + all_texts(s.skip(1))
    }
}

/// Byte strings, one behind the other.
pub open spec fn all_blobs(s: Seq<Seq<u8>>) -> Seq<u8>
    decreases s.len(),
{
    if s.len() == 0 {
        Seq::empty()
    } else {
        blob_bytes(s[0]) + all_blobs(s.skip(1))
    }
}

/// A value: a tag for its type, and its data.
pub open spec fn attr_bytes(v: Attr) -> Seq<u8>
    decreases v,
{
    match v {
        Attr::Null(_) => seq![0x00u8],
        Attr::Bool(b) => seq![0x01u8, if b { 1u8 } else { 0u8 }],
        Attr::N(s) => seq![0x02u8] + text_bytes(s),
        Attr::S(s) => seq![0x03u8] + text_bytes(s),
        Attr::B(b) => seq![0x04u8] + blob_bytes(b),
        Attr::Ss(s) => seq![0x05u8] + be4(s.len() as int) + all_texts(s),
        Attr::Ns(s) => seq![0x06u8] + be4(s.len() as int) + all_texts(s),
        Attr::Bs(s) => seq![0x07u8] + be4(s.len() as int) + all_blobs(s),
        Attr::L(s) => seq![0x08u8] + be4(s.len() as int) + all_attrs(s),
        Attr::M(s) => seq![0x09u8] + be4(s.len() as int) + all_entries(s),
    }
}

/// Values, one behind the other.
pub open spec fn all_attrs(s: Seq<Attr>) -> Seq<u8>
    decreases s,
{
    if s.len() == 0 {
        Seq::empty()
    } else {
        attr_bytes(s[0]) + all_attrs(s.skip(1))
    }
}

/// Names and values, one pair behind the other.
pub open spec fn all_entries(s: Attrs) -> Seq<u8>
    decreases s,
{
    if s.len() == 0 {
        Seq::empty()
    } else {
        text_bytes(s[0].0) + attr_bytes(s[0].1) + all_entries(s.skip(1))
    }
}

/// A key: the number of its attributes in two bytes, and the attributes.
pub open spec fn key_bytes(s: Attrs) -> Seq<u8> {
    be2(s.len() as int) + all_entries(s)
}

/// An item: the number of its attributes in four bytes, and the attributes.
pub open spec fn item_bytes(s: Attrs) -> Seq<u8> {
    be4(s.len() as int) + all_entries(s)
}

/// What was written behind the old bytes of a buffer.
pub open spec fn appended(before: Seq<u8>, now: Seq<u8>, bytes: Seq<u8>) -> bool {
    now == before + bytes
}

/// Appends bytes behind their number.
pub fn write_blob(buf: &mut BytesMut, b: &[u8])
    ensures
        appended(mut_contents(*old(buf)), mut_contents(*final(buf)), blob_bytes(b@)),
{
    put_u32(buf, low_u32(b.len()));
    put_slice(buf, b);
    assert(mut_contents(*buf) =~= mut_contents(*old(buf)) + blob_bytes(b@));
}

/// Appends a text behind the number of its bytes.
pub fn write_string(buf: &mut BytesMut, s: &str)
    ensures
        appended(mut_contents(*old(buf)), mut_contents(*final(buf)), text_bytes(s@)),
{
    write_blob(buf, s.as_bytes());
}

/// Appends texts.
fn write_texts(buf: &mut BytesMut, v: &Vec<String>)
    ensures
        appended(
            mut_contents(*old(buf)),
            mut_contents(*final(buf)),
            be4(v@.len() as int) + all_texts(texts(v@)),
        ),
{
    let ghost s = texts(v@);
    let ghost start = mut_contents(*buf);
    let ghost mut done = be4(v@.len() as int);
    put_u32(buf, low_u32(v.len()));
    let mut i: usize = 0;
    assert(s.skip(0) =~= s);
    while i < v.len()
        invariant
            i <= v@.len(),
            s == texts(v@),
            start == mut_contents(*old(buf)),
            mut_contents(*buf) =~= start + done,
            done + all_texts(s.skip(i as int)) =~= be4(v@.len() as int) + all_texts(s),
        decreases v@.len() - i,
    {
        assert(s.skip(i as int)[0] == v@[i as int]@);
        assert(s.skip(i as int).skip(1) =~= s.skip(i + 1));
        write_string(buf, v[i].as_str());
        proof {
            done = done + text_bytes(s[i as int]);
        }
        i = i + 1;
    }
    assert(s.skip(i as int) =~= Seq::empty());
    assert(done + Seq::empty() =~= done);
}

/// Appends byte strings.
fn write_blobs(buf: &mut BytesMut, v: &Vec<Vec<u8>>)
    ensures
        appended(
            mut_contents(*old(buf)),
            mut_contents(*final(buf)),
            be4(v@.len() as int) + all_blobs(blobs(v@)),
        ),
{
    let ghost s = blobs(v@);
    let ghost start = mut_contents(*buf);
    let ghost mut done = be4(v@.len() as int);
    put_u32(buf, low_u32(v.len()));
    let mut i: usize = 0;
    assert(s.skip(0) =~= s);
    while i < v.len()
        invariant
            i <= v@.len(),
            s == blobs(v@),
            start == mut_contents(*old(buf)),
            mut_contents(*buf) =~= start + done,
            done + all_blobs(s.skip(i as int)) =~= be4(v@.len() as int) + all_blobs(s),
        decreases v@.len() - i,
    {
        assert(s.skip(i as int)[0] == v@[i as int]@);
        assert(s.skip(i as int).skip(1) =~= s.skip(i + 1));
        write_blob(buf, v[i].as_slice());
        proof {
            done = done + blob_bytes(s[i as int]);
        }
        i = i + 1;
    }
    assert(s.skip(i as int) =~= Seq::empty());
    assert(done + Seq::empty() =~= done);
}

/// Appends the values of a list.
fn write_list(buf: &mut BytesMut, v: &Vec<AttributeValue>)
    ensures
        appended(mut_contents(*old(buf)), mut_contents(*final(buf)), all_attrs(attr_list(v@))),
    decreases v, 0int,
{
    let ghost s = attr_list(v@);
    let ghost start = mut_contents(*buf);
    let ghost mut done = Seq::<u8>::empty();
    let mut i: usize = 0;
    assert(s.skip(0) =~= s);
    assert(done + all_attrs(s) =~= all_attrs(s));
    while i < v.len()
        invariant
            i <= v@.len(),
            s == attr_list(v@),
            start == mut_contents(*old(buf)),
            mut_contents(*buf) =~= start + done,
            done + all_attrs(s.skip(i as int)) =~= all_attrs(s),
        decreases v@.len() - i,
    {
        assert(s.skip(i as int)[0] == v@[i as int]@);
        assert(s.skip(i as int).skip(1) =~= s.skip(i + 1));
        write_attribute_value(buf, &v[i]);
        proof {
            done = done + attr_bytes(s[i as int]);
        }
        i = i + 1;
    }
    assert(s.skip(i as int) =~= Seq::empty());
    assert(done + Seq::empty() =~= done);
}

/// Appends names and values.
pub fn write_entries(buf: &mut BytesMut, v: &Vec<(String, AttributeValue)>)
    ensures
        appended(mut_contents(*old(buf)), mut_contents(*final(buf)), all_entries(attrs(v@))),
    decreases v, 0int,
{
    let ghost s = attrs(v@);
    let ghost start = mut_contents(*buf);
    let ghost mut done = Seq::<u8>::empty();
    let mut i: usize = 0;
    assert(s.skip(0) =~= s);
    assert(done + all_entries(s) =~= all_entries(s));
    while i < v.len()
        invariant
            i <= v@.len(),
            s == attrs(v@),
            start == mut_contents(*old(buf)),
            mut_contents(*buf) =~= start + done,
            done + all_entries(s.skip(i as int)) =~= all_entries(s),
        decreases v@.len() - i,
    {
        assert(s.skip(i as int)[0] == (v@[i as int].0@, v@[i as int].1@));
        assert(s.skip(i as int).skip(1) =~= s.skip(i + 1));
        assert(decreases_to!(v@ => v@[i as int]));
        write_string(buf, v[i].0.as_str());
        write_attribute_value(buf, &v[i].1);
        proof {
            done = done + text_bytes(s[i as int].0) + attr_bytes(s[i as int].1);
        }
        i = i + 1;
    }
    assert(s.skip(i as int) =~= Seq::empty());
    assert(done + Seq::empty() =~= done);
}

/// Appends a value.
pub fn write_attribute_value(buf: &mut BytesMut, value: &AttributeValue)
    ensures
        appended(mut_contents(*old(buf)), mut_contents(*final(buf)), attr_bytes(value@)),
    decreases value, 1int,
{
    match value {
        AttributeValue::Null(_) => put_u8(buf, 0x00),
        AttributeValue::Bool(b) => {
            put_u8(buf, 0x01);
            put_u8(
                buf,
                if *b {
                    1
                } else {
                    0
                },
            );
        },
        AttributeValue::N(n) => {
            put_u8(buf, 0x02);
            write_string(buf, n.as_str());
        },
        AttributeValue::S(s) => {
            put_u8(buf, 0x03);
            write_string(buf, s.as_str());
        },
        AttributeValue::B(b) => {
            put_u8(buf, 0x04);
            write_blob(buf, b.as_slice());
        },
        AttributeValue::Ss(ss) => {
            put_u8(buf, 0x05);
            write_texts(buf, ss);
        },
        AttributeValue::Ns(ns) => {
            put_u8(buf, 0x06);
            write_texts(buf, ns);
        },
        AttributeValue::Bs(bs) => {
            put_u8(buf, 0x07);
            write_blobs(buf, bs);
        },
        AttributeValue::L(list) => {
            put_u8(buf, 0x08);
            put_u32(buf, low_u32(list.len()));
            write_list(buf, list);
        },
        AttributeValue::M(map) => {
            put_u8(buf, 0x09);
            put_u32(buf, low_u32(map.len()));
            write_entries(buf, map);
        },
    }
    assert(mut_contents(*buf) =~= mut_contents(*old(buf)) + attr_bytes(value@));
}

/// Appends a key.
pub fn write_key(buf: &mut BytesMut, key: &Item)
    ensures
        appended(mut_contents(*old(buf)), mut_contents(*final(buf)), key_bytes(attrs(key@))),
{
    put_u16(buf, low_u16(key.len()));
    write_entries(buf, key);
    assert(mut_contents(*buf) =~= mut_contents(*old(buf)) + key_bytes(attrs(key@)));
}

/// Appends an item.
pub fn write_item(buf: &mut BytesMut, item: &Item)
    ensures
        appended(mut_contents(*old(buf)), mut_contents(*final(buf)), item_bytes(attrs(item@))),
{
    put_u32(buf, low_u32(item.len()));
    write_entries(buf, item);
    assert(mut_contents(*buf) =~= mut_contents(*old(buf)) + item_bytes(attrs(item@)));
}

/// The truth value at the front: any byte but 0 stands for true.
pub open spec fn bool_at(s: Seq<u8>) -> At<bool> {
    if s.len() == 0 {
        Err(CodecError::UnexpectedEof(Part::Bool))
    } else {
        Ok((s[0] != 0, s.skip(1)))
    }
}

/// The byte at the front.
pub open spec fn u8_at(s: Seq<u8>) -> At<u8> {
    if s.len() == 0 {
        Err(CodecError::UnexpectedEof(Part::U8))
    } else {
        Ok((s[0], s.skip(1)))
    }
}

/// The 16-bit number at the front.
pub open spec fn u16_at(s: Seq<u8>) -> At<u16> {
    if s.len() < 2 {
        Err(CodecError::UnexpectedEof(Part::U16))
    } else {
        Ok((un2(s) as u16, s.skip(2)))
    }
}

/// The 32-bit number at the front.
pub open spec fn u32_at(s: Seq<u8>) -> At<u32> {
    if s.len() < 4 {
        Err(CodecError::UnexpectedEof(Part::U32))
    } else {
        Ok((un4(s) as u32, s.skip(4)))
    }
}

/// The signed 64-bit number at the front.
pub open spec fn i64_at(s: Seq<u8>) -> At<i64> {
    if s.len() < 8 {
        Err(CodecError::UnexpectedEof(Part::I64))
    } else {
        Ok((signed8(un8(s)) as i64, s.skip(8)))
    }
}

/// The bytes at the front, behind their number.
pub open spec fn blob_at(s: Seq<u8>, part: Part) -> At<Seq<u8>> {
    match u32_at(s) {
        Err(e) => Err(e),
        Ok((n, rest)) => if rest.len() < n {
            Err(CodecError::UnexpectedEof(part))
        } else {
            Ok((rest.take(n as int), rest.skip(n as int)))
        },
    }
}

/// The text at the front, behind the number of its bytes.
pub open spec fn text_at(s: Seq<u8>) -> At<Seq<char>> {
    match blob_at(s, Part::StringBody) {
        Err(e) => Err(e),
        Ok((bytes, rest)) => Ok((utf8_lossy(bytes), rest)),
    }
}

/// `n` texts at the front, behind those that are there.
pub open spec fn texts_at(s: Seq<u8>, n: nat, done: Seq<Seq<char>>) -> At<Seq<Seq<char>>>
    decreases n,
{
    if n == 0 {
        Ok((done, s))
    } else {
        match text_at(s) {
            Err(e) => Err(e),
            Ok((text, rest)) => texts_at(rest, (n - 1) as nat, done.push(text)),
        }
    }
}

/// `n` byte strings at the front, behind those that are there.
pub open spec fn blobs_at(s: Seq<u8>, n: nat, done: Seq<Seq<u8>>) -> At<Seq<Seq<u8>>>
    decreases n,
{
    if n == 0 {
        Ok((done, s))
    } else {
        match blob_at(s, Part::BytesBody) {
            Err(e) => Err(e),
            Ok((b, rest)) => blobs_at(rest, (n - 1) as nat, done.push(b)),
        }
    }
}

/// The value at the front: a tag for its type, and its data. An unknown tag stands for a null.
pub open spec fn attr_at(s: Seq<u8>) -> At<Attr>
    decreases s.len(), 0nat,
{
    if s.len() == 0 {
        Err(CodecError::UnexpectedEof(Part::AttributeType))
    } else {
        let rest = s.skip(1);
        match s[0] {
            0x01 => match bool_at(rest) {
                Ok((b, rest)) => Ok((Attr::Bool(b), rest)),
                Err(e) => Err(e),
            },
            0x02 => match text_at(rest) {
                Ok((t, rest)) => Ok((Attr::N(t), rest)),
                Err(e) => Err(e),
            },
            0x03 => match text_at(rest) {
                Ok((t, rest)) => Ok((Attr::S(t), rest)),
                Err(e) => Err(e),
            },
            0x04 => match blob_at(rest, Part::BytesBody) {
                Ok((b, rest)) => Ok((Attr::B(b), rest)),
                Err(e) => Err(e),
            },
            0x05 | 0x06 => match u32_at(rest) {
                Err(e) => Err(e),
                Ok((n, rest)) => match texts_at(rest, n as nat, Seq::empty()) {
                    Err(e) => Err(e),
                    Ok((ts, rest)) => Ok(
                        (
                            if s[0] == 0x05 {
                                Attr::Ss(ts)
                            } else {
                                Attr::Ns(ts)
                            },
                            rest,
                        ),
                    ),
                },
            },
            0x07 => match u32_at(rest) {
                Err(e) => Err(e),
                Ok((n, rest)) => match blobs_at(rest, n as nat, Seq::empty()) {
                    Err(e) => Err(e),
                    Ok((bs, rest)) => Ok((Attr::Bs(bs), rest)),
                },
            },
            0x08 => match u32_at(rest) {
                Err(e) => Err(e),
                Ok((n, rest)) => match attrs_at(rest, n as nat, Seq::empty()) {
                    Err(e) => Err(e),
                    Ok((l, rest)) => Ok((Attr::L(l), rest)),
                },
            },
            0x09 => match u32_at(rest) {
                Err(e) => Err(e),
                Ok((n, rest)) => match entries_at(rest, n as nat, Seq::empty()) {
                    Err(e) => Err(e),
                    Ok((m, rest)) => Ok((Attr::M(m), rest)),
                },
            },
            _ => Ok((Attr::Null(true), rest)),
        }
    }
}

/// `n` values at the front, behind those that are there. A value takes at least one byte.
pub open spec fn attrs_at(s: Seq<u8>, n: nat, done: Seq<Attr>) -> At<Seq<Attr>>
    decreases s.len(), 1nat,
{
    if n == 0 {
        Ok((done, s))
    } else {
        match attr_at(s) {
            Err(e) => Err(e),
            Ok((v, rest)) => if rest.len() < s.len() {
                attrs_at(rest, (n - 1) as nat, done.push(v))
            } else {
                Err(CodecError::UnexpectedEof(Part::AttributeType))
            },
        }
    }
}

/// `n` names and values at the front, set over those that are there: of two
/// values of one name the later counts.
pub open spec fn entries_at(s: Seq<u8>, n: nat, done: Attrs) -> At<Attrs>
    decreases s.len(), 1nat,
{
    if n == 0 {
        Ok((done, s))
    } else {
        match text_at(s) {
            Err(e) => Err(e),
            Ok((name, rest)) => if rest.len() < s.len() {
                match attr_at(rest) {
                    Err(e) => Err(e),
                    Ok((v, end)) => if end.len() < rest.len() {
                        entries_at(end, (n - 1) as nat, with_attr(done, name, v))
                    } else {
                        Err(CodecError::UnexpectedEof(Part::AttributeType))
                    },
                }
            } else {
                Err(CodecError::UnexpectedEof(Part::StringBody))
            },
        }
    }
}

/// The key at the front.
pub open spec fn key_at(s: Seq<u8>) -> At<Attrs> {
    match u16_at(s) {
        Err(e) => Err(e),
        Ok((n, rest)) => entries_at(rest, n as nat, Seq::empty()),
    }
}

/// The item at the front.
pub open spec fn item_at(s: Seq<u8>) -> At<Attrs> {
    match u32_at(s) {
        Err(e) => Err(e),
        Ok((n, rest)) => entries_at(rest, n as nat, Seq::empty()),
    }
}

/// The bytes that are left when one of `n` texts cannot be read.
pub open spec fn texts_left(s: Seq<u8>, n: nat) -> Seq<u8>
    decreases n,
{
    if n == 0 {
        s
    } else {
        match text_at(s) {
            Err(_) => nullable_left(s),
            Ok((_, rest)) => texts_left(rest, (n - 1) as nat),
        }
    }
}

/// The bytes that are left when one of `n` byte strings cannot be read.
pub open spec fn blobs_left(s: Seq<u8>, n: nat) -> Seq<u8>
    decreases n,
{
    if n == 0 {
        s
    } else {
        match blob_at(s, Part::BytesBody) {
            Err(_) => nullable_left(s),
            Ok((_, rest)) => blobs_left(rest, (n - 1) as nat),
        }
    }
}

/// The bytes that are left when a value cannot be read. Its tag is gone.
pub open spec fn attr_left(s: Seq<u8>) -> Seq<u8>
    decreases s.len(), 0nat,
{
    if s.len() == 0 {
        s
    } else {
        let rest = s.skip(1);
        match s[0] {
            0x02 | 0x03 | 0x04 => nullable_left(rest),
            0x05 | 0x06 => match u32_at(rest) {
                Err(_) => rest,
                Ok((n, rest)) => texts_left(rest, n as nat),
            },
            0x07 => match u32_at(rest) {
                Err(_) => rest,
                Ok((n, rest)) => blobs_left(rest, n as nat),
            },
            0x08 => match u32_at(rest) {
                Err(_) => rest,
                Ok((n, rest)) => attrs_left(rest, n as nat),
            },
            0x09 => match u32_at(rest) {
                Err(_) => rest,
                Ok((n, rest)) => entries_left(rest, n as nat),
            },
            _ => rest,
        }
    }
}

/// The bytes that are left when one of `n` values cannot be read.
pub open spec fn attrs_left(s: Seq<u8>, n: nat) -> Seq<u8>
    decreases s.len(), 1nat,
{
    if n == 0 {
        s
    } else {
        match attr_at(s) {
            Err(_) => attr_left(s),
            Ok((_, rest)) => if rest.len() < s.len() {
                attrs_left(rest, (n - 1) as nat)
            } else {
                s
            },
        }
    }
}

/// The bytes that are left when one of `n` names and values cannot be read.
pub open spec fn entries_left(s: Seq<u8>, n: nat) -> Seq<u8>
    decreases s.len(), 1nat,
{
    if n == 0 {
        s
    } else {
        match text_at(s) {
            Err(_) => nullable_left(s),
            Ok((_, rest)) => if rest.len() < s.len() {
                match attr_at(rest) {
                    Err(_) => attr_left(rest),
                    Ok((_, end)) => if end.len() < rest.len() {
                        entries_left(end, (n - 1) as nat)
                    } else {
                        s
                    },
                }
            } else {
                s
            },
        }
    }
}

/// The bytes that are left when a key cannot be read.
pub open spec fn key_left(s: Seq<u8>) -> Seq<u8> {
    match u16_at(s) {
        Err(_) => s,
        Ok((n, rest)) => entries_left(rest, n as nat),
    }
}

/// The bytes that are left when an item cannot be read.
pub open spec fn item_left(s: Seq<u8>) -> Seq<u8> {
    match u32_at(s) {
        Err(_) => s,
        Ok((n, rest)) => entries_left(rest, n as nat),
    }
}

/// Reading texts leaves no more bytes than there were.
proof fn lemma_texts_shrink(s: Seq<u8>, n: nat, done: Seq<Seq<char>>)
    ensures
        texts_at(s, n, done) matches Ok((_, rest)) ==> rest.len() <= s.len(),
    decreases n,
{
    if n > 0 {
        if let Ok((text, rest)) = text_at(s) {
            lemma_texts_shrink(rest, (n - 1) as nat, done.push(text));
        }
    }
}

/// Reading byte strings leaves no more bytes than there were.
proof fn lemma_blobs_shrink(s: Seq<u8>, n: nat, done: Seq<Seq<u8>>)
    ensures
        blobs_at(s, n, done) matches Ok((_, rest)) ==> rest.len() <= s.len(),
    decreases n,
{
    if n > 0 {
        if let Ok((b, rest)) = blob_at(s, Part::BytesBody) {
            lemma_blobs_shrink(rest, (n - 1) as nat, done.push(b));
        }
    }
}

/// A value takes at least one byte.
pub proof fn lemma_attr_shrinks(s: Seq<u8>)
    ensures
        attr_at(s) matches Ok((_, rest)) ==> rest.len() < s.len(),
    decreases s.len(), 0nat,
{
    if s.len() > 0 {
        let rest = s.skip(1);
        if let Ok((n, rest)) = u32_at(rest) {
            lemma_texts_shrink(rest, n as nat, Seq::empty());
            lemma_blobs_shrink(rest, n as nat, Seq::empty());
            lemma_attrs_shrink(rest, n as nat, Seq::empty());
            lemma_entries_shrink(rest, n as nat, Seq::empty());
        }
    }
}

/// Reading values leaves no more bytes than there were.
proof fn lemma_attrs_shrink(s: Seq<u8>, n: nat, done: Seq<Attr>)
    ensures
        attrs_at(s, n, done) matches Ok((_, rest)) ==> rest.len() <= s.len(),
    decreases s.len(), 1nat,
{
    if n > 0 {
        if let Ok((v, rest)) = attr_at(s) {
            lemma_attr_shrinks(s);
            lemma_attrs_shrink(rest, (n - 1) as nat, done.push(v));
        }
    }
}

/// Reading names and values leaves no more bytes than there were.
proof fn lemma_entries_shrink(s: Seq<u8>, n: nat, done: Attrs)
    ensures
        entries_at(s, n, done) matches Ok((_, rest)) ==> rest.len() <= s.len(),
    decreases s.len(), 1nat,
{
    if n > 0 {
        if let Ok((name, rest)) = text_at(s) {
            if let Ok((v, end)) = attr_at(rest) {
                lemma_attr_shrinks(rest);
                lemma_entries_shrink(end, (n - 1) as nat, with_attr(done, name, v));
            }
        }
    }
}

/// Reads the truth value at the front.
pub fn read_bool(slice: &mut &[u8]) -> (r: Result<bool, CodecError>)
    ensures
        did_read(bool_at((*old(slice))@), r, (*final(slice))@),
        r is Err ==> (*final(slice))@ == (*old(slice))@,
{
    let s: &[u8] = *slice;
    if s.len() == 0 {
        return Err(CodecError::UnexpectedEof(Part::Bool));
    }
    let (_, rest): (&[u8], &[u8]) = s.split_at(1);
    assert(rest@ =~= s@.skip(1));
    *slice = rest;
    Ok(s[0] != 0)
}

/// Reads the byte at the front.
pub fn read_u8(slice: &mut &[u8]) -> (r: Result<u8, CodecError>)
    ensures
        did_read(u8_at((*old(slice))@), r, (*final(slice))@),
        r is Err ==> (*final(slice))@ == (*old(slice))@,
{
    let s: &[u8] = *slice;
    if s.len() == 0 {
        return Err(CodecError::UnexpectedEof(Part::U8));
    }
    let (_, rest): (&[u8], &[u8]) = s.split_at(1);
    assert(rest@ =~= s@.skip(1));
    *slice = rest;
    Ok(s[0])
}

/// Reads the 16-bit number at the front.
pub fn read_u16(slice: &mut &[u8]) -> (r: Result<u16, CodecError>)
    ensures
        did_read(u16_at((*old(slice))@), r, (*final(slice))@),
        r is Err ==> (*final(slice))@ == (*old(slice))@,
{
    let s: &[u8] = *slice;
    if s.len() < 2 {
        return Err(CodecError::UnexpectedEof(Part::U16));
    }
    let (_, rest): (&[u8], &[u8]) = s.split_at(2);
    assert(rest@ =~= s@.skip(2));
    *slice = rest;
    Ok(read_be2(s))
}

/// Reads the 32-bit number at the front.
pub fn read_u32(slice: &mut &[u8]) -> (r: Result<u32, CodecError>)
    ensures
        did_read(u32_at((*old(slice))@), r, (*final(slice))@),
        r is Err ==> (*final(slice))@ == (*old(slice))@,
{
    let s: &[u8] = *slice;
    if s.len() < 4 {
        return Err(CodecError::UnexpectedEof(Part::U32));
    }
    let (_, rest): (&[u8], &[u8]) = s.split_at(4);
    assert(rest@ =~= s@.skip(4));
    *slice = rest;
    Ok(read_be4(s))
}

/// Reads the signed 64-bit number at the front.
pub fn read_i64(slice: &mut &[u8]) -> (r: Result<i64, CodecError>)
    ensures
        did_read(i64_at((*old(slice))@), r, (*final(slice))@),
        r is Err ==> (*final(slice))@ == (*old(slice))@,
{
    let s: &[u8] = *slice;
    if s.len() < 8 {
        return Err(CodecError::UnexpectedEof(Part::I64));
    }
    let (_, rest): (&[u8], &[u8]) = s.split_at(8);
    assert(rest@ =~= s@.skip(8));
    *slice = rest;
    Ok(to_i64(read_be8(s)))
}

/// Takes the bytes at the front, behind their number.
fn take_blob<'a>(slice: &mut &'a [u8], part: Part) -> (r: Result<&'a [u8], CodecError>)
    ensures
        match blob_at((*old(slice))@, part) {
            Ok((bytes, rest)) => r is Ok && r->Ok_0@ == bytes && (*final(slice))@ == rest,
            Err(e) => r == Err::<&'a [u8], CodecError>(e),
        },
        r is Err ==> (*final(slice))@ == nullable_left((*old(slice))@),
{
    let n: u32 = match read_u32(slice) {
        Ok(n) => n,
        Err(e) => {
            return Err(e);
        },
    };
    let s: &[u8] = *slice;
    if s.len() < n as usize {
        return Err(CodecError::UnexpectedEof(part));
    }
    let (bytes, rest): (&[u8], &[u8]) = s.split_at(n as usize);
    assert(bytes@ =~= s@.take(n as int));
    assert(rest@ =~= s@.skip(n as int));
    *slice = rest;
    Ok(bytes)
}

/// Reads the text at the front, behind the number of its bytes.
pub fn read_string(slice: &mut &[u8]) -> (r: Result<String, CodecError>)
    ensures
        did_read_string(text_at((*old(slice))@), r, (*final(slice))@),
        r is Err ==> (*final(slice))@ == nullable_left((*old(slice))@),
{
    match take_blob(slice, Part::StringBody) {
        Ok(bytes) => Ok(from_utf8_lossy(bytes)),
        Err(e) => Err(e),
    }
}

/// Reads the bytes at the front, behind their number.
pub fn read_bytes(slice: &mut &[u8]) -> (r: Result<Vec<u8>, CodecError>)
    ensures
        match blob_at((*old(slice))@, Part::BytesBody) {
            Ok((bytes, rest)) => r is Ok && r->Ok_0@ == bytes && (*final(slice))@ == rest,
            Err(e) => r == Err::<Vec<u8>, CodecError>(e),
        },
        r is Err ==> (*final(slice))@ == nullable_left((*old(slice))@),
{
    match take_blob(slice, Part::BytesBody) {
        Ok(bytes) => Ok(slice_to_vec(bytes)),
        Err(e) => Err(e),
    }
}

/// Reads `n` texts.
fn read_texts(slice: &mut &[u8], n: u32) -> (r: Result<Vec<String>, CodecError>)
    ensures
        match texts_at((*old(slice))@, n as nat, Seq::empty()) {
            Ok((s, rest)) => r is Ok && texts(r->Ok_0@) == s && (*final(slice))@ == rest,
            Err(e) => r == Err::<Vec<String>, CodecError>(e),
        },
        r is Err ==> (*final(slice))@ == texts_left((*old(slice))@, n as nat),
{
    let mut list: Vec<String> = Vec::new();
    let mut left: u32 = n;
    assert(texts(list@) =~= Seq::empty());
    while left > 0
        invariant
            texts_at((*old(slice))@, n as nat, Seq::empty()) == texts_at(
                (*slice)@,
                left as nat,
                texts(list@),
            ),
            texts_left((*old(slice))@, n as nat) == texts_left((*slice)@, left as nat),
        decreases left,
    {
        match read_string(slice) {
            Ok(text) => {
                proof {
                    lemma_texts_push(list@, text);
                }
                list.push(text);
            },
            Err(e) => {
                return Err(e);
            },
        }
        left = left - 1;
    }
    Ok(list)
}

/// Reads `n` byte strings.
fn read_blobs(slice: &mut &[u8], n: u32) -> (r: Result<Vec<Vec<u8>>, CodecError>)
    ensures
        match blobs_at((*old(slice))@, n as nat, Seq::empty()) {
            Ok((s, rest)) => r is Ok && blobs(r->Ok_0@) == s && (*final(slice))@ == rest,
            Err(e) => r == Err::<Vec<Vec<u8>>, CodecError>(e),
        },
        r is Err ==> (*final(slice))@ == blobs_left((*old(slice))@, n as nat),
{
    let mut list: Vec<Vec<u8>> = Vec::new();
    let mut left: u32 = n;
    assert(blobs(list@) =~= Seq::empty());
    while left > 0
        invariant
            blobs_at((*old(slice))@, n as nat, Seq::empty()) == blobs_at(
                (*slice)@,
                left as nat,
                blobs(list@),
            ),
            blobs_left((*old(slice))@, n as nat) == blobs_left((*slice)@, left as nat),
        decreases left,
    {
        let ghost before = list@;
        match read_bytes(slice) {
            Ok(b) => {
                list.push(b);
                assert(blobs(list@) =~= blobs(before).push(b@));
            },
            Err(e) => {
                return Err(e);
            },
        }
        left = left - 1;
    }
    Ok(list)
}

/// Reads `n` values.
fn read_list(slice: &mut &[u8], n: u32) -> (r: Result<Vec<AttributeValue>, CodecError>)
    ensures
        match attrs_at((*old(slice))@, n as nat, Seq::empty()) {
            Ok((s, rest)) => r is Ok && attr_list(r->Ok_0@) == s && (*final(slice))@ == rest,
            Err(e) => r == Err::<Vec<AttributeValue>, CodecError>(e),
        },
        r is Err ==> (*final(slice))@ == attrs_left((*old(slice))@, n as nat),
    decreases (*old(slice))@.len(), 1nat,
{
    let mut list: Vec<AttributeValue> = Vec::new();
    let mut left: u32 = n;
    assert(attr_list(list@) =~= Seq::empty());
    while left > 0
        invariant
            (*slice)@.len() <= (*old(slice))@.len(),
            attrs_at((*old(slice))@, n as nat, Seq::empty()) == attrs_at(
                (*slice)@,
                left as nat,
                attr_list(list@),
            ),
            attrs_left((*old(slice))@, n as nat) == attrs_left((*slice)@, left as nat),
        decreases left,
    {
        let ghost before = list@;
        proof {
            lemma_attr_shrinks((*slice)@);
        }
        match read_attribute_value(slice) {
            Ok(v) => {
                list.push(v);
                assert(attr_list(list@) =~= attr_list(before).push(v@));
            },
            Err(e) => {
                return Err(e);
            },
        }
        left = left - 1;
    }
    Ok(list)
}

/// Reads `n` names and values.
fn read_entries(slice: &mut &[u8], n: u32) -> (r: Result<Item, CodecError>)
    ensures
        match entries_at((*old(slice))@, n as nat, Seq::empty()) {
            Ok((s, rest)) => r is Ok && attrs(r->Ok_0@) == s && (*final(slice))@ == rest,
            Err(e) => r == Err::<Item, CodecError>(e),
        },
        r is Err ==> (*final(slice))@ == entries_left((*old(slice))@, n as nat),
    decreases (*old(slice))@.len(), 1nat,
{
    let mut item: Item = Vec::new();
    let mut left: u32 = n;
    assert(attrs(item@) =~= Seq::empty());
    while left > 0
        invariant
            (*slice)@.len() <= (*old(slice))@.len(),
            entries_at((*old(slice))@, n as nat, Seq::empty()) == entries_at(
                (*slice)@,
                left as nat,
                attrs(item@),
            ),
            entries_left((*old(slice))@, n as nat) == entries_left((*slice)@, left as nat),
        decreases left,
    {
        let name: String = match read_string(slice) {
            Ok(name) => name,
            Err(e) => {
                return Err(e);
            },
        };
        proof {
            lemma_attr_shrinks((*slice)@);
        }
        match read_attribute_value(slice) {
            Ok(v) => set_attribute(&mut item, name, v),
            Err(e) => {
                return Err(e);
            },
        }
        left = left - 1;
    }
    Ok(item)
}

/// Reads the value at the front.
pub fn read_attribute_value(slice: &mut &[u8]) -> (r: Result<AttributeValue, CodecError>)
    ensures
        match attr_at((*old(slice))@) {
            Ok((v, rest)) => r is Ok && r->Ok_0@ == v && (*final(slice))@ == rest,
            Err(e) => r == Err::<AttributeValue, CodecError>(e),
        },
        r is Err ==> (*final(slice))@ == attr_left((*old(slice))@),
    decreases (*old(slice))@.len(), 0nat,
{
    let s: &[u8] = *slice;
    if s.len() == 0 {
        return Err(CodecError::UnexpectedEof(Part::AttributeType));
    }
    let tag: u8 = s[0];
    let (_, rest): (&[u8], &[u8]) = s.split_at(1);
    assert(rest@ =~= s@.skip(1));
    *slice = rest;
    if tag == 0x01 {
        return match read_bool(slice) {
            Ok(b) => Ok(AttributeValue::Bool(b)),
            Err(e) => Err(e),
        };
    }
    if tag == 0x02 || tag == 0x03 {
        return match read_string(slice) {
            Ok(text) => Ok(
                if tag == 0x02 {
                    AttributeValue::N(text)
                } else {
                    AttributeValue::S(text)
                },
            ),
            Err(e) => Err(e),
        };
    }
    if tag == 0x04 {
        return match read_bytes(slice) {
            Ok(b) => Ok(AttributeValue::B(b)),
            Err(e) => Err(e),
        };
    }
    if tag < 0x05 || tag > 0x09 {
        return Ok(AttributeValue::Null(true));
    }
    let n: u32 = match read_u32(slice) {
        Ok(n) => n,
        Err(e) => {
            return Err(e);
        },
    };
    match tag {
        0x05 => match read_texts(slice, n) {
            Ok(v) => Ok(AttributeValue::Ss(v)),
            Err(e) => Err(e),
        },
        0x06 => match read_texts(slice, n) {
            Ok(v) => Ok(AttributeValue::Ns(v)),
            Err(e) => Err(e),
        },
        0x07 => match read_blobs(slice, n) {
            Ok(v) => Ok(AttributeValue::Bs(v)),
            Err(e) => Err(e),
        },
        0x08 => match read_list(slice, n) {
            Ok(v) => Ok(AttributeValue::L(v)),
            Err(e) => Err(e),
        },
        _ => match read_entries(slice, n) {
            Ok(v) => Ok(AttributeValue::M(v)),
            Err(e) => Err(e),
        },
    }
}

/// An item was read as `at` says.
pub open spec fn did_read_attrs(at: At<Attrs>, r: Result<Item, CodecError>, now: Seq<u8>) -> bool {
    match at {
        Ok((s, rest)) => r is Ok && attrs(r->Ok_0@) == s && now == rest,
        Err(e) => r == Err::<Item, CodecError>(e),
    }
}

/// Reads the key at the front.
pub fn read_key(slice: &mut &[u8]) -> (r: Result<Item, CodecError>)
    ensures
        did_read_attrs(key_at((*old(slice))@), r, (*final(slice))@),
        r is Err ==> (*final(slice))@ == key_left((*old(slice))@),
{
    match read_u16(slice) {
        Ok(n) => read_entries(slice, n as u32),
        Err(e) => Err(e),
    }
}

/// Reads the item at the front.
pub fn read_item(slice: &mut &[u8]) -> (r: Result<Item, CodecError>)
    ensures
        did_read_attrs(item_at((*old(slice))@), r, (*final(slice))@),
        r is Err ==> (*final(slice))@ == item_left((*old(slice))@),
{
    match read_u32(slice) {
        Ok(n) => read_entries(slice, n),
        Err(e) => Err(e),
    }
}

} // verus!
