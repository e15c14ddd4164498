//! Byte order on the wire, and the byte buffers of the `bytes` crate.
//!
//! Every integer on the wire is big-endian. The spec functions `be2`, `be4`
//! and `be8` give the bytes of a number; `un2`, `un4` and `un8` read them back.

use bytes::{BufMut, Bytes, BytesMut};
use vstd::prelude::*;

verus! {

/// The two big-endian bytes of `n` modulo 2^16.
#[verifier::opaque]
pub open spec fn be2(n: int) -> Seq<u8> {
    seq![(n / 0x100 % 0x100) as u8, (n % 0x100) as u8]
}

/// The four big-endian bytes of `n` modulo 2^32; for a negative `n`, its two's complement.
#[verifier::opaque]
pub open spec fn be4(n: int) -> Seq<u8> {
    seq![
        (n / 0x100_0000 % 0x100) as u8,
        (n / 0x1_0000 % 0x100) as u8,
        (n / 0x100 % 0x100) as u8,
        (n % 0x100) as u8,
    ]
}

/// The eight big-endian bytes of `n` modulo 2^64; for a negative `n`, its two's complement.
#[verifier::opaque]
pub open spec fn be8(n: int) -> Seq<u8> {
    be4(n / 0x1_0000_0000) + be4(n)
}

/// The unsigned number that the first two bytes of `s` spell.
pub open spec fn un2(s: Seq<u8>) -> int {
    s[0] * 0x100 + s[1]
}

/// The unsigned number that the first four bytes of `s` spell.
pub open spec fn un4(s: Seq<u8>) -> int {
    s[0] * 0x100_0000 + s[1] * 0x1_0000 + s[2] * 0x100 + s[3]
}

/// The unsigned number that the first eight bytes of `s` spell.
pub open spec fn un8(s: Seq<u8>) -> int {
    un4(s) * 0x1_0000_0000 + (s[4] * 0x100_0000 + s[5] * 0x1_0000 + s[6] * 0x100 + s[7])
}

/// The signed reading of an 8-bit pattern.
pub open spec fn signed1(n: int) -> int {
    if n < 0x80 { n } else { n - 0x100 }
}

/// The signed reading of a 16-bit pattern.
pub open spec fn signed2(n: int) -> int {
    if n < 0x8000 { n } else { n - 0x1_0000 }
}

/// The signed reading of a 32-bit pattern.
pub open spec fn signed4(n: int) -> int {
    if n < 0x8000_0000 { n } else { n - 0x1_0000_0000 }
}

/// The signed reading of a 64-bit pattern.
pub open spec fn signed8(n: int) -> int {
    if n < 0x8000_0000_0000_0000 { n } else { n - 0x1_0000_0000_0000_0000 }
}

/// A number takes as many bytes as its name says.
pub broadcast proof fn lemma_be2_len(n: int)
    ensures
        (#[trigger] be2(n)).len() == 2,
{
    reveal(be2);
}

/// A number takes as many bytes as its name says.
pub broadcast proof fn lemma_be4_len(n: int)
    ensures
        (#[trigger] be4(n)).len() == 4,
{
    reveal(be4);
}

/// A number takes as many bytes as its name says.
pub broadcast proof fn lemma_be8_len(n: int)
    ensures
        (#[trigger] be8(n)).len() == 8,
{
    reveal(be8);
    reveal(be4);
}

pub broadcast group group_be {
    lemma_be2_len,
    lemma_be4_len,
    lemma_be8_len,
}

/// The bytes do not see what lies above them.
pub proof fn lemma_be_wraps(n: int)
    ensures
        be2(n % 0x1_0000) == be2(n),
        be4(n % 0x1_0000_0000) == be4(n),
{
    reveal(be2);
    reveal(be4);
    let q = n / 0x1_0000_0000;
    let m = n % 0x1_0000_0000;
    assert(n / 0x100_0000 == q * 0x100 + m / 0x100_0000);
    assert(n / 0x1_0000 == q * 0x1_0000 + m / 0x1_0000);
    assert(n / 0x100 == q * 0x100_0000 + m / 0x100);
    assert(be4(m) =~= be4(n));
    let q2 = n / 0x1_0000;
    let m2 = n % 0x1_0000;
    assert(n / 0x100 == q2 * 0x100 + m2 / 0x100);
    assert(be2(m2) =~= be2(n));
}

/// The eight bytes do not see what lies above them.
pub proof fn lemma_be8_wraps(n: int)
    ensures
        be8(n % 0x1_0000_0000_0000_0000) == be8(n),
{
    reveal(be8);
    let m = n % 0x1_0000_0000_0000_0000;
    let q = n / 0x1_0000_0000_0000_0000;
    assert(n / 0x1_0000_0000 == q * 0x1_0000_0000 + m / 0x1_0000_0000);
    assert((n / 0x1_0000_0000) % 0x1_0000_0000 == (m / 0x1_0000_0000) % 0x1_0000_0000);
    assert(n % 0x1_0000_0000 == m % 0x1_0000_0000);
    lemma_be_wraps(n / 0x1_0000_0000);
    lemma_be_wraps(m / 0x1_0000_0000);
    lemma_be_wraps(n);
    lemma_be_wraps(m);
}

/// The four bytes of `n` spell `n` modulo 2^32.
proof fn lemma_be4_value(n: int)
    ensures
        un4(be4(n)) == n % 0x1_0000_0000,
{
    reveal(be4);
    let a = n / 0x100;
    let b = a / 0x100;
    let c = b / 0x100;
    assert(n / 0x1_0000 == b && n / 0x100_0000 == c);
}

/// Reading two big-endian bytes undoes writing them.
pub proof fn lemma_be2(n: int, rest: Seq<u8>)
    requires
        -0x8000 <= n < 0x1_0000,
    ensures
        be2(n).len() == 2,
        n >= 0 ==> un2(be2(n) + rest) == n,
        n < 0x8000 ==> signed2(un2(be2(n) + rest)) == n,
        (be2(n) + rest).skip(2) == rest,
{
    reveal(be2);
    let s = be2(n) + rest;
    assert(s[0] == be2(n)[0] && s[1] == be2(n)[1]);
    assert(s.skip(2) =~= rest);
}

/// Reading four big-endian bytes undoes writing them.
pub proof fn lemma_be4(n: int, rest: Seq<u8>)
    requires
        -0x8000_0000 <= n < 0x1_0000_0000,
    ensures
        be4(n).len() == 4,
        n >= 0 ==> un4(be4(n) + rest) == n,
        n < 0x8000_0000 ==> signed4(un4(be4(n) + rest)) == n,
        (be4(n) + rest).skip(4) == rest,
{
    reveal(be4);
    let s = be4(n) + rest;
    assert(s[0] == be4(n)[0] && s[1] == be4(n)[1] && s[2] == be4(n)[2] && s[3] == be4(n)[3]);
    assert(s.skip(4) =~= rest);
}

/// Reading eight big-endian bytes undoes writing them.
pub proof fn lemma_be8(n: int, rest: Seq<u8>)
    requires
        -0x8000_0000_0000_0000 <= n < 0x1_0000_0000_0000_0000,
    ensures
        be8(n).len() == 8,
        n >= 0 ==> un8(be8(n) + rest) == n,
        n < 0x8000_0000_0000_0000 ==> signed8(un8(be8(n) + rest)) == n,
        (be8(n) + rest).skip(8) == rest,
{
    reveal(be8);
    reveal(be4);
    let s = be8(n) + rest;
    let hi = n / 0x1_0000_0000;
    lemma_be4_value(hi);
    lemma_be4_value(n);
    assert(s[0] == be4(hi)[0] && s[1] == be4(hi)[1] && s[2] == be4(hi)[2] && s[3] == be4(hi)[3]);
    assert(s[4] == be4(n)[0] && s[5] == be4(n)[1] && s[6] == be4(n)[2] && s[7] == be4(n)[3]);
    assert(un8(s) == un4(be4(hi)) * 0x1_0000_0000 + un4(be4(n)));
    assert(s.skip(8) =~= rest);
}

/// `bytes::BytesMut`, the growable byte buffer that frames are built in.
#[verifier::external_type_specification]
#[verifier::external_body]
pub struct ExBytesMut(BytesMut);

/// `bytes::Bytes`, the shared byte buffer that frame bodies are held in.
#[verifier::external_type_specification]
#[verifier::external_body]
pub struct ExBytes(Bytes);

/// The bytes that a `BytesMut` holds, in order.
pub uninterp spec fn mut_contents(buf: BytesMut) -> Seq<u8>;

/// The bytes that a `Bytes` holds, in order.
pub uninterp spec fn contents(buf: Bytes) -> Seq<u8>;

/// `BytesMut::new`: an empty buffer.
#[verifier::external_body]
pub(crate) fn new_buffer() -> (buf: BytesMut)
    ensures
        mut_contents(buf) == Seq::<u8>::empty(),
{
    BytesMut::new()
}

/// `BytesMut::len`: how many bytes the buffer holds.
#[verifier::external_body]
pub(crate) fn mut_len(buf: &BytesMut) -> (len: usize)
    ensures
        len == mut_contents(*buf).len(),
{
    buf.len()
}

/// `<BytesMut as Deref>::deref`: the buffer's bytes as a slice.
#[verifier::external_body]
pub(crate) fn mut_slice(buf: &BytesMut) -> (slice: &[u8])
    ensures
        slice@ == mut_contents(*buf),
{
    buf
}

/// `BufMut::put_u8`: appends one byte.
#[verifier::external_body]
pub(crate) fn put_u8(buf: &mut BytesMut, n: u8)
    ensures
        mut_contents(*final(buf)) == mut_contents(*old(buf)).push(n),
{
    buf.put_u8(n)
}

/// `BufMut::put_i8`: appends the byte of a signed 8-bit number.
#[verifier::external_body]
pub(crate) fn put_i8(buf: &mut BytesMut, n: i8)
    ensures
        mut_contents(*final(buf)) == mut_contents(*old(buf)).push((n as int % 0x100) as u8),
{
    buf.put_i8(n)
}

/// `BufMut::put_u16`: appends two big-endian bytes.
#[verifier::external_body]
pub(crate) fn put_u16(buf: &mut BytesMut, n: u16)
    ensures
        mut_contents(*final(buf)) == mut_contents(*old(buf)) + be2(n as int),
{
    buf.put_u16(n)
}

/// `BufMut::put_i16`: appends two big-endian bytes.
#[verifier::external_body]
pub(crate) fn put_i16(buf: &mut BytesMut, n: i16)
    ensures
        mut_contents(*final(buf)) == mut_contents(*old(buf)) + be2(n as int),
{
    buf.put_i16(n)
}

/// `BufMut::put_u32`: appends four big-endian bytes.
#[verifier::external_body]
pub(crate) fn put_u32(buf: &mut BytesMut, n: u32)
    ensures
        mut_contents(*final(buf)) == mut_contents(*old(buf)) + be4(n as int),
{
    buf.put_u32(n)
}

/// `BufMut::put_i32`: appends four big-endian bytes.
#[verifier::external_body]
pub(crate) fn put_i32(buf: &mut BytesMut, n: i32)
    ensures
        mut_contents(*final(buf)) == mut_contents(*old(buf)) + be4(n as int),
{
    buf.put_i32(n)
}

/// `BufMut::put_u64`: appends eight big-endian bytes.
#[verifier::external_body]
pub(crate) fn put_u64(buf: &mut BytesMut, n: u64)
    ensures
        mut_contents(*final(buf)) == mut_contents(*old(buf)) + be8(n as int),
{
    buf.put_u64(n)
}

/// `BufMut::put_i64`: appends eight big-endian bytes.
#[verifier::external_body]
pub(crate) fn put_i64(buf: &mut BytesMut, n: i64)
    ensures
        mut_contents(*final(buf)) == mut_contents(*old(buf)) + be8(n as int),
{
    buf.put_i64(n)
}

/// `BytesMut::extend_from_slice`: appends the bytes of a slice.
#[verifier::external_body]
pub(crate) fn put_slice(buf: &mut BytesMut, data: &[u8])
    ensures
        mut_contents(*final(buf)) == mut_contents(*old(buf)) + data@,
{
    buf.extend_from_slice(data)
}

/// `BytesMut::truncate`: keeps the first `len` bytes.
#[verifier::external_body]
pub(crate) fn truncate(buf: &mut BytesMut, len: usize)
    requires
        len <= mut_contents(*old(buf)).len(),
    ensures
        mut_contents(*final(buf)) == mut_contents(*old(buf)).take(len as int),
{
    buf.truncate(len)
}

/// `<[u8]>::copy_within`, reached through `<BytesMut as DerefMut>::deref_mut`: moves the bytes from `start`
/// on, up to the end of the buffer, to `dest`; all other bytes stay.
#[verifier::external_body]
pub(crate) fn copy_tail_within(buf: &mut BytesMut, start: usize, dest: usize)
    requires
        dest <= start <= mut_contents(*old(buf)).len(),
    ensures
        mut_contents(*final(buf)) == mut_contents(*old(buf)).take(dest as int)
            + mut_contents(*old(buf)).skip(start as int)
            + mut_contents(*old(buf)).skip(dest + (mut_contents(*old(buf)).len() - start)),
{
    buf.copy_within(start.., dest)
}

/// `<[u8]>::copy_from_slice`, reached through `<BytesMut as DerefMut>::deref_mut`: overwrites the bytes at
/// `pos` with `data`.
#[verifier::external_body]
pub(crate) fn overwrite(buf: &mut BytesMut, pos: usize, data: &[u8])
    requires
        pos + data@.len() <= mut_contents(*old(buf)).len(),
    ensures
        mut_contents(*final(buf)) == mut_contents(*old(buf)).take(pos as int) + data@
            + mut_contents(*old(buf)).skip(pos + data@.len()),
{
    buf[pos..pos + data.len()].copy_from_slice(data)
}

/// `BytesMut::split_to`: takes the first `at` bytes out of the buffer and leaves the rest in it.
#[verifier::external_body]
pub(crate) fn split_to(buf: &mut BytesMut, at: usize) -> (head: BytesMut)
    requires
        at <= mut_contents(*old(buf)).len(),
    ensures
        mut_contents(head) == mut_contents(*old(buf)).take(at as int),
        mut_contents(*final(buf)) == mut_contents(*old(buf)).skip(at as int),
{
    buf.split_to(at)
}

/// `BytesMut::freeze`: the same bytes, shared.
#[verifier::external_body]
pub(crate) fn freeze(buf: BytesMut) -> (bytes: Bytes)
    ensures
        contents(bytes) == mut_contents(buf),
{
    buf.freeze()
}

/// `<Bytes as Clone>::clone`: another handle to the same bytes.
#[verifier::external_body]
pub(crate) fn clone_bytes(bytes: &Bytes) -> (copy: Bytes)
    ensures
        contents(copy) == contents(*bytes),
{
    bytes.clone()
}

/// `Bytes::slice`: the bytes from `start` up to `end`, shared.
#[verifier::external_body]
pub(crate) fn slice_bytes(bytes: &Bytes, start: usize, end: usize) -> (part: Bytes)
    requires
        start <= end <= contents(*bytes).len(),
    ensures
        contents(part) == contents(*bytes).subrange(start as int, end as int),
{
    bytes.slice(start..end)
}

/// `<Bytes as Deref>::deref`: the bytes as a slice.
#[verifier::external_body]
pub(crate) fn bytes_slice(bytes: &Bytes) -> (slice: &[u8])
    ensures
        slice@ == contents(*bytes),
{
    bytes
}

/// The sixteen bits that the first two bytes of `s` spell.
pub fn read_be2(s: &[u8]) -> (n: u16)
    requires
        s@.len() >= 2,
    ensures
        n == un2(s@),
{
    s[0] as u16 * 0x100 + s[1] as u16
}

/// The thirty-two bits that the first four bytes of `s` spell.
pub fn read_be4(s: &[u8]) -> (n: u32)
    requires
        s@.len() >= 4,
    ensures
        n == un4(s@),
{
    s[0] as u32 * 0x100_0000 + s[1] as u32 * 0x1_0000 + s[2] as u32 * 0x100 + s[3] as u32
}

/// The sixty-four bits that the first eight bytes of `s` spell.
pub fn read_be8(s: &[u8]) -> (n: u64)
    requires
        s@.len() >= 8,
    ensures
        n == un8(s@),
{
    let hi: u32 = read_be4(s);
    let lo: u32 = s[4] as u32 * 0x100_0000 + s[5] as u32 * 0x1_0000 + s[6] as u32 * 0x100
        + s[7] as u32;
    hi as u64 * 0x1_0000_0000 + lo as u64
}

/// An 8-bit pattern read as a signed number.
pub fn to_i8(n: u8) -> (r: i8)
    ensures
        r == signed1(n as int),
{
    if n < 0x80 { n as i8 } else { (n as i16 - 0x100) as i8 }
}

/// A 16-bit pattern read as a signed number.
pub fn to_i16(n: u16) -> (r: i16)
    ensures
        r == signed2(n as int),
{
    if n < 0x8000 { n as i16 } else { (n as i32 - 0x1_0000) as i16 }
}

/// A 32-bit pattern read as a signed number.
pub fn to_i32(n: u32) -> (r: i32)
    ensures
        r == signed4(n as int),
{
    if n < 0x8000_0000 { n as i32 } else { (n as i64 - 0x1_0000_0000) as i32 }
}

/// A 64-bit pattern read as a signed number.
pub fn to_i64(n: u64) -> (r: i64)
    ensures
        r == signed8(n as int),
{
    if n < 0x8000_0000_0000_0000 {
        n as i64
    } else {
        (n as i128 - 0x1_0000_0000_0000_0000) as i64
    }
}

/// The lower sixteen bits of a length.
pub fn low_u16(n: usize) -> (r: u16)
    ensures
        r == n as int % 0x1_0000,
        be2(r as int) == be2(n as int),
{
    proof {
        lemma_be_wraps(n as int);
    }
    (n % 0x1_0000) as u16
}

/// The lower thirty-two bits of a length.
pub fn low_u32(n: usize) -> (r: u32)
    ensures
        r == n as int % 0x1_0000_0000,
        be4(r as int) == be4(n as int),
{
    proof {
        lemma_be_wraps(n as int);
    }
    (n as u64 % 0x1_0000_0000) as u32
}

/// The first of the bytes of a number is its highest, and each counts for 256
/// of the next.
pub proof fn law_highest_byte_comes_first(a: u8, b: u8, c: u8, d: u8, high: u32, low: u32)
    ensures
        be2(a * 0x100 + b) == seq![a, b],
        be4(((a * 0x100 + b) * 0x100 + c) * 0x100 + d) == seq![a, b, c, d],
        be8(high * 0x1_0000_0000 + low) == be4(high as int) + be4(low as int),
{
    reveal(be2);
    reveal(be4);
    reveal(be8);
    let n = ((a * 0x100 + b) * 0x100 + c) * 0x100 + d;
    assert(n / 0x100 == (a * 0x100 + b) * 0x100 + c);
    assert(n / 0x1_0000 == a * 0x100 + b);
    assert(n / 0x100_0000 == a);
    assert(be2(a * 0x100 + b) =~= seq![a, b]);
    assert(be4(n) =~= seq![a, b, c, d]);
    let m = high * 0x1_0000_0000 + low;
    assert(m / 0x1_0000_0000 == high);
    assert(m % 0x1_0000_0000 == low as int % 0x1_0000_0000);
    lemma_be_wraps(m);
    lemma_be_wraps(low as int);
}

/// Writing big-endian bytes undoes reading them.
pub proof fn lemma_un(s: Seq<u8>)
    ensures
        s.len() >= 2 ==> s == be2(un2(s)) + s.skip(2),
        s.len() >= 4 ==> s == be4(un4(s)) + s.skip(4) && s == be4(signed4(un4(s))) + s.skip(4),
        s.len() >= 8 ==> s == be8(un8(s)) + s.skip(8),
{
    reveal(be8);
    if s.len() >= 2 {
        law_highest_byte_comes_first(s[0], s[1], 0, 0, 0, 0);
        assert(s =~= be2(un2(s)) + s.skip(2));
    }
    if s.len() >= 4 {
        law_highest_byte_comes_first(s[0], s[1], s[2], s[3], 0, 0);
        assert(un4(s) == ((s[0] * 0x100 + s[1]) * 0x100 + s[2]) * 0x100 + s[3]);
        assert(s =~= be4(un4(s)) + s.skip(4));
        lemma_be_wraps(signed4(un4(s)));
        lemma_be_wraps(un4(s));
        assert(signed4(un4(s)) % 0x1_0000_0000 == un4(s) % 0x1_0000_0000);
    }
    if s.len() >= 8 {
        let tail = s.skip(4);
        law_highest_byte_comes_first(s[4], s[5], s[6], s[7], 0, 0);
        assert(un4(tail) == ((s[4] * 0x100 + s[5]) * 0x100 + s[6]) * 0x100 + s[7]);
        law_highest_byte_comes_first(0, 0, 0, 0, un4(s) as u32, un4(tail) as u32);
        assert(un8(s) == un4(s) * 0x1_0000_0000 + un4(tail));
        assert(s =~= be8(un8(s)) + s.skip(8));
    }
}

} // verus!
