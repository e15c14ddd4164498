//! The variable-length integers that durations are sent as.
//!
//! A number is folded to an unsigned one (0, -1, 1, -2, ... become 0, 1, 2,
//! 3, ...) and sent in groups of seven bits, one to a byte.

use crate::error::{CodecError, Part};
use crate::reader::{did_read, At};
use vstd::arithmetic::power2::pow2;
use vstd::prelude::*;

verus! {

/// The unsigned number that a signed one is folded to.
pub open spec fn zigzag(v: i64) -> int {
    if v >= 0 {
        2 * v
    } else {
        -2 * v - 1
    }
}

/// The signed number that was folded to `n`.
pub open spec fn unzigzag(n: int) -> i64 {
    if n % 2 == 0 {
        (n / 2) as i64
    } else {
        (-(n / 2) - 1) as i64
    }
}

/// The groups at the front, the lowest first, where a set top bit announces a
/// further group; `k` groups came before.
pub open spec fn groups_at(s: Seq<u8>, k: int) -> At<int>
    decreases 10 - k,
{
    if s.len() == 0 {
        Err(CodecError::UnexpectedEof(Part::Vint))
    } else if s[0] < 0x80 {
        Ok((s[0] as int, s.skip(1)))
    } else if k >= 9 {
        Err(CodecError::VintOverflow)
    } else {
        match groups_at(s.skip(1), k + 1) {
            Ok((n, rest)) => Ok((s[0] - 0x80 + 0x80 * n, rest)),
            Err(e) => Err(e),
        }
    }
}

/// The variable-length integer at the front.
pub open spec fn vint_at(s: Seq<u8>) -> At<i64> {
    match groups_at(s, 0) {
        Ok((n, rest)) => Ok((unzigzag(n % 0x1_0000_0000_0000_0000), rest)),
        Err(e) => Err(e),
    }
}

/// The bytes that are left when there is no variable-length integer: none if
/// it is cut off, and those behind ten bytes if it does not end there.
pub open spec fn vint_left(s: Seq<u8>) -> Seq<u8> {
    if s.len() < 10 {
        Seq::empty()
    } else {
        s.skip(10)
    }
}

/// Reads a variable-length integer, the lowest group first.
pub fn decode_vint(slice: &mut &[u8]) -> (r: Result<i64, CodecError>)
    ensures
        did_read(vint_at(old(slice)@), r, final(slice)@),
        r is Err ==> final(slice)@ == vint_left(old(slice)@),
{
    let ghost start = slice@;
    let mut result: u64 = 0;
    let mut scale: u64 = 1;
    let mut k: u64 = 0;
    proof {
        vstd::arithmetic::power2::lemma2_to64();
    }
    loop
        invariant
            k <= 9,
            scale == pow2((7 * k) as nat),
            result < scale,
            start == old(slice)@,
            k <= start.len(),
            slice@ == start.skip(k as int),
            k < 9 ==> scale <= 0x100_0000_0000_0000,
            k == 9 ==> scale == 0x8000_0000_0000_0000,
            groups_at(start, 0) == (match groups_at(slice@, k as int) {
                Ok((n, rest)) => At::Ok((result + scale * n, rest)),
                Err(e) => Err(e),
            }),
        decreases 10 - k,
    {
        let len: usize = slice.len();
        if len == 0 {
            return Err(CodecError::UnexpectedEof(Part::Vint));
        }
        let ghost cur = slice@;
        let byte: u8 = slice[0];
        let (_, rest): (&[u8], &[u8]) = slice.split_at(1);
        *slice = rest;
        assert(slice@ =~= cur.skip(1));
        assert(slice@ =~= start.skip(k + 1));
        let group: u64 = (byte % 0x80) as u64;
        if byte < 0x80 {
            let top: u64 = if k == 9 {
                group % 2
            } else {
                group
            };
            proof {
                assert(scale * top <= 0x8000_0000_0000_0000) by (nonlinear_arith)
                    requires
                        k < 9 ==> scale <= 0x100_0000_0000_0000,
                        k == 9 ==> scale == 0x8000_0000_0000_0000,
                        k == 9 ==> top < 2,
                        k < 9 ==> top < 0x80,
                        k <= 9,
                ;
                assert((result + scale * group) % 0x1_0000_0000_0000_0000 == result + scale * top)
                    by {
                    assert(result + scale * top < 0x1_0000_0000_0000_0000);
                    if k == 9 {
                        assert(group == 2 * (group / 2) + top);
                        assert(scale * group == 0x1_0000_0000_0000_0000 * (group / 2) + scale * top)
                            by (nonlinear_arith)
                            requires
                                scale == 0x8000_0000_0000_0000,
                                group == 2 * (group / 2) + top,
                        ;
                    }
                }
            }
            let n: u64 = result + scale * top;
            return Ok(
                if n % 2 == 0 {
                    (n / 2) as i64
                } else {
                    -((n / 2) as i64) - 1
                },
            );
        }
        if k == 9 {
            return Err(CodecError::VintOverflow);
        }
        proof {
            vstd::arithmetic::power2::lemma2_to64();
            vstd::arithmetic::power2::lemma2_to64_rest();
            assert(scale * group + scale <= scale * 0x80) by (nonlinear_arith)
                requires
                    group < 0x80,
            ;
            assert forall|n: int| #[trigger]
                (scale * (group + 0x80 * n)) == scale * group + (scale * 0x80) * n by {
                assert(scale * (group + 0x80 * n) == scale * group + (scale * 0x80) * n)
                    by (nonlinear_arith);
            }
            vstd::arithmetic::power2::lemma_pow2_adds(7, (7 * k) as nat);
            assert(pow2((7 * (k + 1)) as nat) == scale * 0x80) by (nonlinear_arith)
                requires
                    pow2((7 * (k + 1)) as nat) == pow2(7) * pow2((7 * k) as nat),
                    pow2(7) == 0x80,
                    scale == pow2((7 * k) as nat),
            ;
            if k + 1 < 9 {
                if k + 1 < 8 {
                    vstd::arithmetic::power2::lemma_pow2_strictly_increases((7 * (k + 1)) as nat, 56);
                }
            }
        }
        result = result + scale * group;
        scale = scale * 0x80;
        k = k + 1;
    }
}

/// The groups of `n`, the highest first, each with its top bit set.
pub open spec fn marked_groups(n: int) -> Seq<u8>
    decreases n,
{
    if n < 0x80 {
        seq![(0x80 + n) as u8]
    } else {
        marked_groups(n / 0x80).push((0x80 + n % 0x80) as u8)
    }
}

/// The bytes that a folded number is sent as: its groups, the highest first,
/// where every byte but the last has its top bit set.
pub open spec fn group_bytes(n: int) -> Seq<u8> {
    if n < 0x80 {
        seq![n as u8]
    } else {
        marked_groups(n / 0x80).push((n % 0x80) as u8)
    }
}

/// Appends a variable-length integer, the highest group first.
pub fn encode_vint(value: i64, out: &mut Vec<u8>)
    ensures
        final(out)@ == old(out)@ + group_bytes(zigzag(value)),
{
    let n: u64 = if value >= 0 {
        2 * value as u64
    } else {
        2 * ((-(value + 1)) as u64) + 1
    };
    assert(n == zigzag(value));
    if n >= 0x80 {
        push_marked_groups(n / 0x80, out);
    }
    out.push((n % 0x80) as u8);
    assert(out@ =~= old(out)@ + group_bytes(n as int));
}

/// Appends groups, the highest first, each with its top bit set.
fn push_marked_groups(n: u64, out: &mut Vec<u8>)
    ensures
        final(out)@ == old(out)@ + marked_groups(n as int),
    decreases n,
{
    if n >= 0x80 {
        push_marked_groups(n / 0x80, out);
    }
    out.push((0x80 + n % 0x80) as u8);
    assert(out@ =~= old(out)@ + marked_groups(n as int));
}

/// The number with the groups of `high` and, below them, those of `n` in the
/// opposite order.
pub open spec fn flip_onto(high: int, n: int) -> int
    decreases n,
{
    if n < 0x80 {
        high * 0x80 + n
    } else {
        flip_onto(high * 0x80 + n % 0x80, n / 0x80)
    }
}

/// The number with the groups of `n` in the opposite order, in 64 bits.
pub open spec fn flipped(n: int) -> int {
    flip_onto(0, n) % 0x1_0000_0000_0000_0000
}

/// A folded number whose groups read the same from both ends.
pub open spec fn mirrored(n: int) -> bool {
    flipped(n) == n
}

/// Folding a number loses nothing.
pub proof fn law_zigzag_round_trip(v: i64)
    ensures
        0 <= zigzag(v) < 0x1_0000_0000_0000_0000,
        unzigzag(zigzag(v)) == v,
{
}

/// A number of at most `7 * m` bits has at most `m` groups.
proof fn lemma_group_count(n: int, m: nat)
    requires
        0 <= n < pow2(7 * m),
        m > 0,
    ensures
        0 < marked_groups(n).len() <= m,
    decreases m,
{
    if n >= 0x80 {
        vstd::arithmetic::power2::lemma2_to64();
        if m == 1 {
            assert(pow2(7 * m) == 0x80);
        } else {
            vstd::arithmetic::power2::lemma_pow2_adds(7, (7 * (m - 1)) as nat);
            assert(n / 0x80 < pow2((7 * (m - 1)) as nat)) by (nonlinear_arith)
                requires
                    n < 0x80 * pow2((7 * (m - 1)) as nat),
            ;
            lemma_group_count(n / 0x80, (m - 1) as nat);
        }
    }
}

/// The reader takes the first group for the lowest.
proof fn lemma_marked_groups_read(n: int, s: Seq<u8>, k: int, high: int, rest: Seq<u8>)
    requires
        n >= 0,
        k >= 0,
        k + marked_groups(n).len() <= 9,
        groups_at(s, k + marked_groups(n).len()) == At::Ok((high, rest)),
    ensures
        groups_at(marked_groups(n) + s, k) == At::Ok((flip_onto(high, n), rest)),
    decreases n,
{
    let all = marked_groups(n) + s;
    if n < 0x80 {
        assert(all[0] == 0x80 + n);
        assert(all.skip(1) =~= s);
    } else {
        let init = marked_groups(n / 0x80);
        let last = (0x80 + n % 0x80) as u8;
        let tail = seq![last] + s;
        assert(tail.skip(1) =~= s);
        assert(groups_at(tail, k + init.len()) == At::Ok((high * 0x80 + n % 0x80, rest)));
        lemma_marked_groups_read(n / 0x80, tail, k, high * 0x80 + n % 0x80, rest);
        assert(init + tail =~= all);
    }
}

/// A number that was sent is read as the one with its groups in the opposite
/// order, and no byte behind it is touched: the writer sends the highest group
/// first, the reader takes the first for the lowest.
pub proof fn law_vint_is_flipped(v: i64, rest: Seq<u8>)
    ensures
        vint_at(group_bytes(zigzag(v)) + rest) == At::Ok((unzigzag(flipped(zigzag(v))), rest)),
{
    let n = zigzag(v);
    let s = group_bytes(n) + rest;
    if n < 0x80 {
        assert(s.skip(1) =~= rest);
    } else {
        let init = marked_groups(n / 0x80);
        let last = seq![(n % 0x80) as u8] + rest;
        assert(last.skip(1) =~= rest);
        assert(pow2(63) == 0x8000_0000_0000_0000) by {
            vstd::arithmetic::power2::lemma2_to64_rest();
        }
        lemma_group_count(n / 0x80, 9);
        assert(groups_at(last, init.len() as int) == At::Ok((n % 0x80, rest)));
        lemma_marked_groups_read(n / 0x80, last, 0, n % 0x80, rest);
        assert(init + last =~= s);
    }
}

/// A number that was sent is read back exactly if its groups read the same
/// from both ends.
pub proof fn law_vint_round_trip(v: i64, rest: Seq<u8>)
    ensures
        vint_at(group_bytes(zigzag(v)) + rest) == At::Ok((v, rest)) <==> mirrored(zigzag(v)),
{
    law_vint_is_flipped(v, rest);
    law_zigzag_round_trip(v);
    assert(0 <= flipped(zigzag(v)) < 0x1_0000_0000_0000_0000);
}

/// Every number from -64 to 63 is read back as it was sent.
pub proof fn law_small_vint_round_trip(v: i64, rest: Seq<u8>)
    requires
        -64 <= v < 64,
    ensures
        vint_at(group_bytes(zigzag(v)) + rest) == At::Ok((v, rest)),
{
    law_vint_round_trip(v, rest);
}

} // verus!
