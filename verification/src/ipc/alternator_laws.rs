//! What is read back of attributes, keys and items that were written.

use super::alternator_codec::{
    all_attrs, all_blobs, all_entries, all_texts, attr_at, attr_bytes, attrs_at, blob_at,
    blob_bytes, blobs_at, entries_at, item_at, item_bytes, key_at, key_bytes, text_at,
    text_bytes, texts_at, u32_at,
};
use super::attribute::{distinct_names, lemma_with_attr_new, Attr, Attrs};
use crate::error::Part;
use crate::reader::At;
use crate::text::lemma_utf8_round_trip;
use crate::wire::{be2, be4, lemma_be2, lemma_be4};
use vstd::prelude::*;
use vstd::utf8::encode_utf8;

verus! {

broadcast use crate::wire::group_be;

/// The largest number of bytes or elements that a length of four bytes holds.
pub open spec fn max_length() -> int {
    0xFFFF_FFFF
}

/// A text whose bytes a length counts.
pub open spec fn countable(s: Seq<char>) -> bool {
    encode_utf8(s).len() <= max_length()
}

/// Texts whose bytes lengths count.
pub open spec fn all_countable(s: Seq<Seq<char>>) -> bool {
    forall|i: int| 0 <= i < s.len() ==> countable(#[trigger] s[i])
}

/// A value that can be read back: its lengths are counted, no name occurs
/// twice in a map, and a null is a true one.
pub open spec fn readable(v: Attr) -> bool
    decreases v,
{
    match v {
        Attr::Null(b) => b,
        Attr::Bool(_) => true,
        Attr::N(s) | Attr::S(s) => countable(s),
        Attr::B(b) => b.len() <= max_length(),
        Attr::Ss(s) => s.len() <= max_length() && all_countable(s),
        Attr::Ns(s) => s.len() <= max_length() && all_countable(s),
        Attr::Bs(s) => s.len() <= max_length() && forall|i: int|
            0 <= i < s.len() ==> (#[trigger] s[i]).len() <= max_length(),
        Attr::L(s) => s.len() <= max_length() && all_readable(s),
        Attr::M(s) => s.len() <= max_length() && attrs_readable(s),
    }
}

/// Values that can be read back.
pub open spec fn all_readable(s: Seq<Attr>) -> bool
    decreases s,
{
    forall|i: int| 0 <= i < s.len() ==> readable(#[trigger] s[i])
}

/// Attributes that can be read back, each under its own name.
pub open spec fn attrs_readable(s: Attrs) -> bool
    decreases s,
{
    &&& distinct_names(s)
    &&& forall|i: int| 0 <= i < s.len() ==> countable((#[trigger] s[i]).0)
    &&& forall|i: int| 0 <= i < s.len() ==> readable((#[trigger] s[i]).1)
}

/// Bytes behind their number come back.
pub(crate) proof fn lemma_blob(b: Seq<u8>, rest: Seq<u8>, part: Part)
    requires
        b.len() <= max_length(),
    ensures
        blob_at(blob_bytes(b) + rest, part) == At::<Seq<u8>>::Ok((b, rest)),
{
    let s = blob_bytes(b) + rest;
    assert(s =~= be4(b.len() as int) + (b + rest));
    lemma_be4(b.len() as int, b + rest);
    assert(s.skip(4) =~= b + rest);
    assert((b + rest).take(b.len() as int) =~= b);
    assert((b + rest).skip(b.len() as int) =~= rest);
}

/// A text comes back.
pub(crate) proof fn lemma_text(t: Seq<char>, rest: Seq<u8>)
    requires
        countable(t),
    ensures
        text_at(text_bytes(t) + rest) == At::<Seq<char>>::Ok((t, rest)),
{
    lemma_blob(encode_utf8(t), rest, Part::StringBody);
    lemma_utf8_round_trip(t);
}

/// Texts come back.
proof fn lemma_texts(s: Seq<Seq<char>>, done: Seq<Seq<char>>, rest: Seq<u8>)
    requires
        all_countable(s),
    ensures
        texts_at(all_texts(s) + rest, s.len(), done) == At::<Seq<Seq<char>>>::Ok((done + s, rest)),
    decreases s.len(),
{
    if s.len() == 0 {
        assert(all_texts(s) + rest =~= rest);
        assert(done + s =~= done);
    } else {
        let more = s.skip(1);
        let tail = all_texts(more) + rest;
        assert(all_texts(s) + rest =~= text_bytes(s[0]) + tail);
        lemma_text(s[0], tail);
        lemma_texts(more, done.push(s[0]), rest);
        assert(done.push(s[0]) + more =~= done + s);
    }
}

/// Byte strings come back.
proof fn lemma_blobs(s: Seq<Seq<u8>>, done: Seq<Seq<u8>>, rest: Seq<u8>)
    requires
        forall|i: int| 0 <= i < s.len() ==> (#[trigger] s[i]).len() <= max_length(),
    ensures
        blobs_at(all_blobs(s) + rest, s.len(), done) == At::<Seq<Seq<u8>>>::Ok((done + s, rest)),
    decreases s.len(),
{
    if s.len() == 0 {
        assert(all_blobs(s) + rest =~= rest);
        assert(done + s =~= done);
    } else {
        let more = s.skip(1);
        let tail = all_blobs(more) + rest;
        assert(all_blobs(s) + rest =~= blob_bytes(s[0]) + tail);
        lemma_blob(s[0], tail, Part::BytesBody);
        lemma_blobs(more, done.push(s[0]), rest);
        assert(done.push(s[0]) + more =~= done + s);
    }
}

/// Values come back.
proof fn lemma_list(s: Seq<Attr>, done: Seq<Attr>, rest: Seq<u8>)
    requires
        all_readable(s),
    ensures
        attrs_at(all_attrs(s) + rest, s.len(), done) == At::<Seq<Attr>>::Ok((done + s, rest)),
    decreases s, 0int,
{
    if s.len() == 0 {
        assert(all_attrs(s) + rest =~= rest);
        assert(done + s =~= done);
    } else {
        let more = s.skip(1);
        let tail = all_attrs(more) + rest;
        assert(all_attrs(s) + rest =~= attr_bytes(s[0]) + tail);
        assert(readable(s[0]));
        law_attribute_round_trip(s[0], tail);
        assert(attr_bytes(s[0]).len() >= 1);
        assert forall|i: int| 0 <= i < more.len() implies readable(#[trigger] more[i]) by {
            assert(more[i] == s[i + 1]);
        }
        lemma_list(more, done.push(s[0]), rest);
        assert(done.push(s[0]) + more =~= done + s);
    }
}

/// Attributes come back behind others with other names.
proof fn lemma_entries(s: Attrs, done: Attrs, rest: Seq<u8>)
    requires
        attrs_readable(s),
        distinct_names(done + s),
    ensures
        entries_at(all_entries(s) + rest, s.len(), done) == At::<Attrs>::Ok((done + s, rest)),
    decreases s, 0int,
{
    if s.len() == 0 {
        assert(all_entries(s) + rest =~= rest);
        assert(done + s =~= done);
    } else {
        let more = s.skip(1);
        let tail = all_entries(more) + rest;
        let whole = all_entries(s) + rest;
        assert(whole =~= text_bytes(s[0].0) + (attr_bytes(s[0].1) + tail));
        lemma_text(s[0].0, attr_bytes(s[0].1) + tail);
        assert(decreases_to!(s => s[0]));
        law_attribute_round_trip(s[0].1, tail);
        assert(attr_bytes(s[0].1).len() >= 1);
        assert(forall|i: int| 0 <= i < more.len() ==> more[i] == s[i + 1]);
        assert(done.push(s[0]) + more =~= done + s);
        assert forall|j: int| 0 <= j < done.len() implies (#[trigger] done[j]).0 != s[0].0 by {
            assert((done + s)[j] == done[j]);
            assert((done + s)[done.len() as int] == s[0]);
        }
        lemma_with_attr_new(done, s[0].0, s[0].1);
        assert(s[0] == (s[0].0, s[0].1));
        lemma_entries(more, done.push(s[0]), rest);
    }
}

/// A value that holds no other values or texts comes back.
proof fn lemma_scalar(v: Attr, rest: Seq<u8>)
    requires
        readable(v),
        v is Null || v is Bool || v is N || v is S || v is B,
    ensures
        attr_at(attr_bytes(v) + rest) == At::<Attr>::Ok((v, rest)),
{
    let s = attr_bytes(v) + rest;
    match v {
        Attr::Null(_) => {
            assert(s.skip(1) =~= rest);
        },
        Attr::Bool(_) => {
            assert(s.skip(1).skip(1) =~= rest);
        },
        Attr::N(t) => {
            lemma_text(t, rest);
            assert(s.skip(1) =~= text_bytes(t) + rest);
        },
        Attr::S(t) => {
            lemma_text(t, rest);
            assert(s.skip(1) =~= text_bytes(t) + rest);
        },
        Attr::B(b) => {
            lemma_blob(b, rest, Part::BytesBody);
            assert(s.skip(1) =~= blob_bytes(b) + rest);
        },
        _ => {},
    }
}

/// A set comes back.
proof fn lemma_set(v: Attr, rest: Seq<u8>)
    requires
        readable(v),
        v is Ss || v is Ns || v is Bs,
    ensures
        attr_at(attr_bytes(v) + rest) == At::<Attr>::Ok((v, rest)),
{
    let s = attr_bytes(v) + rest;
    match v {
        Attr::Ss(ts) => {
            lemma_counted(s, ts.len(), all_texts(ts) + rest);
            lemma_texts(ts, Seq::empty(), rest);
            assert(Seq::empty() + ts =~= ts);
        },
        Attr::Ns(ts) => {
            lemma_counted(s, ts.len(), all_texts(ts) + rest);
            lemma_texts(ts, Seq::empty(), rest);
            assert(Seq::empty() + ts =~= ts);
        },
        Attr::Bs(bs) => {
            lemma_counted(s, bs.len(), all_blobs(bs) + rest);
            lemma_blobs(bs, Seq::empty(), rest);
            assert(Seq::empty() + bs =~= bs);
        },
        _ => {},
    }
}

/// A value that was written is read back, and what follows it is left.
pub proof fn law_attribute_round_trip(v: Attr, rest: Seq<u8>)
    requires
        readable(v),
    ensures
        attr_at(attr_bytes(v) + rest) == At::<Attr>::Ok((v, rest)),
    decreases v, 0int,
{
    match v {
        Attr::L(l) => {
            let s = attr_bytes(v) + rest;
            lemma_counted(s, l.len(), all_attrs(l) + rest);
            lemma_list(l, Seq::empty(), rest);
            assert(Seq::empty() + l =~= l);
        },
        Attr::M(m) => {
            let s = attr_bytes(v) + rest;
            lemma_counted(s, m.len(), all_entries(m) + rest);
            assert(Seq::empty() + m =~= m);
            lemma_entries(m, Seq::empty(), rest);
        },
        Attr::Ss(_) | Attr::Ns(_) | Attr::Bs(_) => {
            lemma_set(v, rest);
        },
        _ => {
            lemma_scalar(v, rest);
        },
    }
}

/// The number behind a tag, and what follows it.
proof fn lemma_counted(s: Seq<u8>, n: nat, tail: Seq<u8>)
    requires
        n <= max_length(),
        s.len() > 0,
        s.skip(1) =~= be4(n as int) + tail,
    ensures
        u32_at(s.skip(1)) == At::<u32>::Ok((n as u32, tail)),
{
    lemma_be4(n as int, tail);
    assert(s.skip(1).skip(4) =~= tail);
}

/// An item that was written is read back, and what follows it is left.
pub proof fn law_item_round_trip(item: Attrs, rest: Seq<u8>)
    requires
        attrs_readable(item),
        item.len() <= max_length(),
    ensures
        item_at(item_bytes(item) + rest) == At::<Attrs>::Ok((item, rest)),
{
    let s = item_bytes(item) + rest;
    let tail = all_entries(item) + rest;
    assert(s =~= be4(item.len() as int) + tail);
    lemma_be4(item.len() as int, tail);
    assert(s.skip(4) =~= tail);
    assert(Seq::empty() + item =~= item);
    lemma_entries(item, Seq::empty(), rest);
}

/// A key that was written is read back, and what follows it is left.
pub proof fn law_key_round_trip(key: Attrs, rest: Seq<u8>)
    requires
        attrs_readable(key),
        key.len() <= 0xFFFF,
    ensures
        key_at(key_bytes(key) + rest) == At::<Attrs>::Ok((key, rest)),
{
    let s = key_bytes(key) + rest;
    let tail = all_entries(key) + rest;
    assert(s =~= be2(key.len() as int) + tail);
    lemma_be2(key.len() as int, tail);
    assert(s.skip(2) =~= tail);
    assert(Seq::empty() + key =~= key);
    lemma_entries(key, Seq::empty(), rest);
}

} // verus!
