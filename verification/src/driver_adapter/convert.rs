//! Conversion of bind values to the types of their columns.

use super::decode::{decode_typed_value_by_code, int_of, read_int_flexible, typed};
use super::duration::{duration_of_text, parse_duration_string};
use crate::error::{after, lemma_after, CodecError, Wide};
use crate::ipc::decode::{did_decode, Decoded};
use crate::text::from_utf8;
use crate::value::{
    entry_vals, field_vals, lemma_entry_vals_push, lemma_field_vals_push, lemma_opt_vals_push,
    lemma_vals_push, narrow, narrow_spec, opt_val, opt_vals, vals, ColumnType, CqlValue, IpAddr,
    NativeType, Val,
};
use crate::wire::{be8, bytes_slice, contents, read_be8, un8};
use bytes::Bytes;
use chrono::{Datelike, NaiveDate, NaiveTime, Timelike};
use rust_decimal::Decimal;
use uuid::Uuid;
use vstd::prelude::*;
use vstd::string::*;
use vstd::utf8::{decode_utf8, valid_utf8};

verus! {

broadcast use crate::wire::group_be;

/// The unscaled number and the scale that `rust_decimal::Decimal::from_str_exact` reads from a text,
/// or what it says of the text.
pub uninterp spec fn decimal_of_text(text: Seq<char>) -> Result<(i128, u32), Seq<char>>;

/// `rust_decimal::Decimal::from_str_exact`: the number in a text, taken apart
/// by `mantissa` and `scale`; where the text is no exact decimal number, the
/// error in words. What comes back depends on the text alone and has a name.
#[verifier::external_body]
pub(crate) fn parse_decimal(text: &str) -> (r: Result<(i128, u32), String>)
    ensures
        match r {
            Ok(parts) => decimal_of_text(text@) matches Ok(named) && named == parts,
            Err(reason) => decimal_of_text(text@) matches Err(named) && named == reason@,
        },
{
    match Decimal::from_str_exact(text) {
        Ok(decimal) => Ok((decimal.mantissa(), decimal.scale())),
        Err(e) => Err(e.to_string()),
    }
}

/// The day, counted from 1 January of the year 1 as day 1, that `chrono::NaiveDate::parse_from_str` reads
/// from a text in the given format, or what it says of the text.
pub uninterp spec fn day_of_text(text: Seq<char>, format: Seq<char>) -> Result<i32, Seq<char>>;

/// `chrono::NaiveDate::parse_from_str`: the date in a text, as the number of
/// its day by `num_days_from_ce`; where the text is no date in the format, the
/// error in words. What comes back depends on the text and the format alone and
/// has a name.
#[verifier::external_body]
pub(crate) fn parse_day(text: &str, format: &str) -> (r: Result<i32, String>)
    ensures
        match r {
            Ok(day) => day_of_text(text@, format@) matches Ok(named) && named == day,
            Err(reason) => day_of_text(text@, format@) matches Err(named) && named == reason@,
        },
{
    match NaiveDate::parse_from_str(text, format) {
        Ok(date) => Ok(date.num_days_from_ce()),
        Err(e) => Err(e.to_string()),
    }
}

/// The seconds since midnight and the nanoseconds behind them that `chrono::NaiveTime::parse_from_str`
/// reads from a text in the given format, or what it says of the text.
pub uninterp spec fn clock_of_text(text: Seq<char>, format: Seq<char>) -> Result<(u32, u32), Seq<char>>;

/// `chrono::NaiveTime::parse_from_str`: the time of day in a text, taken apart
/// by `num_seconds_from_midnight` and `nanosecond`; where the text is no time
/// in the format, the error in words. What comes back depends on the text and
/// the format alone and has a name.
#[verifier::external_body]
pub(crate) fn parse_clock(text: &str, format: &str) -> (r: Result<(u32, u32), String>)
    ensures
        match r {
            Ok(clock) => clock_of_text(text@, format@) matches Ok(named) && named == clock,
            Err(reason) => clock_of_text(text@, format@) matches Err(named) && named == reason@,
        },
{
    match NaiveTime::parse_from_str(text, format) {
        Ok(time) => Ok((time.num_seconds_from_midnight(), time.nanosecond())),
        Err(e) => Err(e.to_string()),
    }
}

/// The sixteen bytes that `uuid::Uuid::parse_str` reads from a text, or what it says of the text.
pub uninterp spec fn uuid_of_text(text: Seq<char>) -> Result<Seq<u8>, Seq<char>>;

/// `uuid::Uuid::parse_str`: the bytes of the UUID in a text; where the text is
/// none, the error in words. What comes back depends on the text alone and has
/// a name.
#[verifier::external_body]
pub(crate) fn parse_uuid(text: &str) -> (r: Result<[u8; 16], String>)
    ensures
        match r {
            Ok(bytes) => uuid_of_text(text@) matches Ok(named) && named == bytes@,
            Err(reason) => uuid_of_text(text@) matches Err(named) && named == reason@,
        },
{
    match Uuid::parse_str(text) {
        Ok(uuid) => Ok(uuid.into_bytes()),
        Err(e) => Err(e.to_string()),
    }
}

/// What was read, without what is said of a text that cannot be read.
pub open spec fn read_of<T>(r: Result<T, Seq<char>>) -> Option<T> {
    match r {
        Ok(v) => Some(v),
        Err(_) => None,
    }
}

/// What was read, without what is said of a text that cannot be read.
fn only_read<T>(r: Result<T, String>) -> (o: Option<T>)
    ensures
        match r {
            Ok(v) => o == Some(v),
            Err(_) => o is None,
        },
{
    match r {
        Ok(v) => Some(v),
        Err(_) => None,
    }
}

/// The day of 1970-01-01, counted from 1 January of the year 1 as day 1.
pub const EPOCH_DAY: i64 = 719_163;

/// The date of a day: days since 1970-01-01, with 2^31 in the middle.
pub open spec fn date_of_day(day: i32) -> u32 {
    ((day - EPOCH_DAY + 0x8000_0000) % 0x1_0000_0000) as u32
}

/// The nanoseconds since midnight.
pub open spec fn nanos_of_clock(seconds: u32, nanos: u32) -> i64 {
    (seconds * 1_000_000_000 + nanos) as i64
}

/// The date of a day, as a CQL date.
pub fn day_to_date(day: i32) -> (date: u32)
    ensures
        date == date_of_day(day),
{
    let n: i64 = day as i64 - EPOCH_DAY + 0x8000_0000;
    if n >= 0 {
        n as u32
    } else {
        (n + 0x1_0000_0000) as u32
    }
}

/// The nanoseconds since midnight of a time of day.
pub fn clock_to_nanos(seconds: u32, nanos: u32) -> (n: i64)
    ensures
        n == nanos_of_clock(seconds, nanos),
{
    seconds as i64 * 1_000_000_000 + nanos as i64
}

/// The sixteen big-endian bytes of a number.
pub open spec fn be16(n: i128) -> Seq<u8> {
    be8(n as int / 0x1_0000_0000_0000_0000) + be8(n as int)
}

/// The value of a decimal column: the unscaled number in sixteen bytes, and the scale.
pub open spec fn decimal_val(parsed: Option<(i128, u32)>) -> Decoded {
    match parsed {
        Some((mantissa, scale)) => if scale <= i32::MAX {
            Ok(Val::Decimal(be16(mantissa), scale as i32))
        } else {
            Err(CodecError::InvalidDecimal)
        },
        None => Err(CodecError::InvalidDecimal),
    }
}

/// The value of a date column.
pub open spec fn date_val(parsed: Option<i32>) -> Decoded {
    match parsed {
        Some(day) => Ok(Val::Date(date_of_day(day))),
        None => Err(CodecError::InvalidDate),
    }
}

/// The value of a time column.
pub open spec fn time_val(parsed: Option<(u32, u32)>) -> Decoded {
    match parsed {
        Some((seconds, nanos)) => Ok(Val::Time(nanos_of_clock(seconds, nanos))),
        None => Err(CodecError::InvalidTime),
    }
}

/// The time of day in a text: hours, minutes and seconds, with or without padding.
pub open spec fn clock_of(text: Seq<char>) -> Option<(u32, u32)> {
    match clock_of_text(text, "%H:%M:%S"@) {
        Ok(clock) => Some(clock),
        Err(_) => read_of(clock_of_text(text, "%-H:%-M:%-S"@)),
    }
}

/// The eight big-endian bytes of a number.
fn be8_bytes(n: u64) -> (v: Vec<u8>)
    ensures
        v@ == be8(n as int),
{
    proof {
        reveal(be8);
        reveal(crate::wire::be4);
    }
    let hi: u64 = n / 0x1_0000_0000;
    let mut v: Vec<u8> = Vec::new();
    v.push((hi / 0x100_0000) as u8);
    v.push((hi / 0x1_0000 % 0x100) as u8);
    v.push((hi / 0x100 % 0x100) as u8);
    v.push((hi % 0x100) as u8);
    v.push((n / 0x100_0000 % 0x100) as u8);
    v.push((n / 0x1_0000 % 0x100) as u8);
    v.push((n / 0x100 % 0x100) as u8);
    v.push((n % 0x100) as u8);
    assert(v@ =~= be8(n as int));
    v
}

/// The eight big-endian bytes of a signed number.
fn i64_bytes(n: i64) -> (v: Vec<u8>)
    ensures
        v@ == be8(n as int),
{
    proof {
        crate::wire::lemma_be8_wraps(n as int);
    }
    if n >= 0 {
        be8_bytes(n as u64)
    } else {
        let bits: u64 = 0xFFFF_FFFF_FFFF_FFFF - (-(n + 1)) as u64;
        assert(bits == n as int % 0x1_0000_0000_0000_0000);
        be8_bytes(bits)
    }
}

/// The sixteen big-endian bytes of a signed number.
fn i128_bytes(n: i128) -> (v: Vec<u8>)
    ensures
        v@ == be16(n),
{
    let ghost q = n as int / 0x1_0000_0000_0000_0000;
    proof {
        crate::wire::lemma_be8_wraps(n as int);
        crate::wire::lemma_be8_wraps(q);
    }
    let (hi, lo): (u64, u64) = if n >= 0 {
        ((n / 0x1_0000_0000_0000_0000) as u64, (n % 0x1_0000_0000_0000_0000) as u64)
    } else {
        let below: u128 = (-(n + 1)) as u128;
        let hi: u64 = 0xFFFF_FFFF_FFFF_FFFF - (below / 0x1_0000_0000_0000_0000) as u64;
        let lo: u64 = 0xFFFF_FFFF_FFFF_FFFF - (below % 0x1_0000_0000_0000_0000) as u64;
        assert(n as int == -1 - below as int);
        assert(q == -1 - below as int / 0x1_0000_0000_0000_0000);
        (hi, lo)
    };
    assert(hi == q % 0x1_0000_0000_0000_0000);
    assert(lo == n as int % 0x1_0000_0000_0000_0000);
    let mut v: Vec<u8> = be8_bytes(hi);
    let mut low: Vec<u8> = be8_bytes(lo);
    v.append(&mut low);
    v
}

/// The value of the last field with a name; of fields that are null, none.
pub open spec fn field_named(fields: Seq<(Seq<char>, Option<Val>)>, name: Seq<char>) -> Option<Val>
    decreases fields.len(),
{
    if fields.len() == 0 {
        None
    } else if fields.last().0 == name {
        fields.last().1
    } else {
        field_named(fields.drop_last(), name)
    }
}

/// An integer for an integer column of at most 32 bits, if it fits.
pub open spec fn fitted(n: i64, native: NativeType, wide: Wide) -> Decoded {
    match native {
        NativeType::SmallInt => if i16::MIN <= n <= i16::MAX {
            Ok(Val::SmallInt(n as i16))
        } else {
            Err(CodecError::OutOfRange(wide, n, native))
        },
        NativeType::TinyInt => if i8::MIN <= n <= i8::MAX {
            Ok(Val::TinyInt(n as i8))
        } else {
            Err(CodecError::OutOfRange(wide, n, native))
        },
        _ => if i32::MIN <= n <= i32::MAX {
            Ok(Val::Int(n as i32))
        } else {
            Err(CodecError::OutOfRange(wide, n, native))
        },
    }
}

/// A value made to match a column type: integers are narrowed where they fit,
/// the items of a collection are made to match the item types, and a
/// user-defined type gets the name, the keyspace and the fields of its
/// definition. Any other value stays as it is.
pub open spec fn coerced(v: Val, t: ColumnType) -> Decoded
    decreases t, 1int, 0nat,
{
    match (v, t) {
        (Val::BigInt(n), ColumnType::Native(NativeType::Int)) => fitted(
            n,
            NativeType::Int,
            Wide::BigInt,
        ),
        (Val::BigInt(n), ColumnType::Native(NativeType::SmallInt)) => fitted(
            n,
            NativeType::SmallInt,
            Wide::BigInt,
        ),
        (Val::BigInt(n), ColumnType::Native(NativeType::TinyInt)) => fitted(
            n,
            NativeType::TinyInt,
            Wide::BigInt,
        ),
        (Val::Int(n), ColumnType::Native(NativeType::SmallInt)) => fitted(
            n as i64,
            NativeType::SmallInt,
            Wide::Int,
        ),
        (Val::Int(n), ColumnType::Native(NativeType::TinyInt)) => fitted(
            n as i64,
            NativeType::TinyInt,
            Wide::Int,
        ),
        (Val::List(s), ColumnType::List(t)) => match coerced_all(s, *t) {
            Ok(s) => Ok(Val::List(s)),
            Err(e) => Err(e),
        },
        (Val::SetOf(s), ColumnType::SetOf(t)) => match coerced_all(s, *t) {
            Ok(s) => Ok(Val::SetOf(s)),
            Err(e) => Err(e),
        },
        (Val::MapOf(s), ColumnType::MapOf(_, _)) => match coerced_entries(s, t) {
            Ok(s) => Ok(Val::MapOf(s)),
            Err(e) => Err(e),
        },
        (Val::Tuple(s), ColumnType::Tuple(types)) => match coerced_tuple(s, types@, 0) {
            Ok(s) => Ok(Val::Tuple(s)),
            Err(e) => Err(e),
        },
        (Val::Udt(_, _, s), ColumnType::UserDefinedType(definition)) => match coerced_fields(
            s,
            definition.field_types@,
            0,
        ) {
            Ok(s) => Ok(Val::Udt(definition.keyspace@, definition.name@, s)),
            Err(e) => Err(e),
        },
        _ => Ok(v),
    }
}

/// Values made to match one column type.
pub open spec fn coerced_all(s: Seq<Val>, t: ColumnType) -> Result<Seq<Val>, CodecError>
    decreases t, 2int, s.len(),
{
    if s.len() == 0 {
        Ok(Seq::empty())
    } else {
        match coerced(s[0], t) {
            Err(e) => Err(e),
            Ok(v) => after(seq![v], coerced_all(s.skip(1), t)),
        }
    }
}

/// Entries made to match the types of the keys and the values of a map type.
pub open spec fn coerced_entries(s: Seq<(Val, Val)>, t: ColumnType) -> Result<
    Seq<(Val, Val)>,
    CodecError,
>
    recommends
        t is MapOf,
    decreases t, 0int, s.len(),
{
    if s.len() == 0 {
        Ok(Seq::empty())
    } else {
        match t {
            ColumnType::MapOf(k, v) => match coerced(s[0].0, *k) {
                Err(e) => Err(e),
                Ok(key) => match coerced(s[0].1, *v) {
                    Err(e) => Err(e),
                    Ok(value) => after(seq![(key, value)], coerced_entries(s.skip(1), t)),
                },
            },
            _ => Ok(s),
        }
    }
}

/// The elements of a tuple from the `k`-th on, made to match their types; what
/// is longer, the tuple or its type, is cut.
pub open spec fn coerced_tuple(s: Seq<Option<Val>>, types: Seq<ColumnType>, k: nat) -> Result<
    Seq<Option<Val>>,
    CodecError,
>
    decreases types, 0int, (types.len() - k) as nat,
{
    if k >= types.len() || k >= s.len() {
        Ok(Seq::empty())
    } else {
        let element = match s[k as int] {
            None => Ok(None),
            Some(v) => match coerced(v, types[k as int]) {
                Ok(v) => Ok(Some(v)),
                Err(e) => Err(e),
            },
        };
        match element {
            Err(e) => Err(e),
            Ok(v) => after(seq![v], coerced_tuple(s, types, k + 1)),
        }
    }
}

/// The fields of a definition from the `k`-th on, each with the value of the
/// same name, made to match its type; a field without a value is null.
pub open spec fn coerced_fields(
    s: Seq<(Seq<char>, Option<Val>)>,
    types: Seq<(String, ColumnType)>,
    k: nat,
) -> Result<Seq<(Seq<char>, Option<Val>)>, CodecError>
    decreases types, 0int, (types.len() - k) as nat,
{
    if k >= types.len() {
        Ok(Seq::empty())
    } else {
        let field = match field_named(s, types[k as int].0@) {
            None => Ok(None),
            Some(v) => match coerced(v, types[k as int].1) {
                Ok(v) => Ok(Some(v)),
                Err(e) => Err(e),
            },
        };
        match field {
            Err(e) => Err(e),
            Ok(v) => after(seq![(types[k as int].0@, v)], coerced_fields(s, types, k + 1)),
        }
    }
}

/// Makes values match one column type.
fn coerce_all(elements: Vec<CqlValue>, expected: &ColumnType) -> (r: Result<
    Vec<CqlValue>,
    CodecError,
>)
    ensures
        match coerced_all(vals(elements@), *expected) {
            Ok(s) => r is Ok && vals(r->Ok_0@) == s,
            Err(e) => r == Err::<Vec<CqlValue>, CodecError>(e),
        },
    decreases expected, 2int,
{
    let ghost s = vals(elements@);
    let ghost all = coerced_all(s, *expected);
    let mut done: Vec<CqlValue> = Vec::new();
    assert(s.skip(0) =~= s);
    assert(vals(done@) =~= Seq::empty());
    proof {
        lemma_after(Seq::empty(), Seq::empty(), all);
    }
    for e in it: elements
        invariant
            it.seq() == elements@,
            s == vals(elements@),
            all == coerced_all(s, *expected),
            all == after(vals(done@), coerced_all(s.skip(it.index() as int), *expected)),
    {
        let ghost i = it.index() as int;
        let ghost rest = s.skip(i);
        assert(rest[0] == e@);
        assert(rest.skip(1) =~= s.skip(i + 1));
        match coerce_value(e, expected) {
            Err(err) => {
                return Err(err);
            },
            Ok(v) => {
                proof {
                    lemma_vals_push(done@, v);
                    lemma_after(vals(done@), seq![v@], coerced_all(s.skip(i + 1), *expected));
                    assert(vals(done@).push(v@) =~= vals(done@) + seq![v@]);
                }
                done.push(v);
            },
        }
    }
    proof {
        assert(s.skip(s.len() as int) =~= Seq::empty());
        lemma_after(vals(done@), Seq::empty(), all);
    }
    Ok(done)
}

/// Makes entries match the types of a map type.
fn coerce_entries(entries: Vec<(CqlValue, CqlValue)>, expected: &ColumnType) -> (r: Result<
    Vec<(CqlValue, CqlValue)>,
    CodecError,
>)
    requires
        expected is MapOf,
    ensures
        match coerced_entries(entry_vals(entries@), *expected) {
            Ok(s) => r is Ok && entry_vals(r->Ok_0@) == s,
            Err(e) => r == Err::<Vec<(CqlValue, CqlValue)>, CodecError>(e),
        },
    decreases expected, 0int,
{
    let ghost s = entry_vals(entries@);
    let ghost all = coerced_entries(s, *expected);
    let mut done: Vec<(CqlValue, CqlValue)> = Vec::new();
    assert(s.skip(0) =~= s);
    assert(entry_vals(done@) =~= Seq::empty());
    proof {
        lemma_after(Seq::empty(), Seq::empty(), all);
    }
    if let ColumnType::MapOf(key_type, value_type) = expected {
        for entry in it: entries
            invariant
                it.seq() == entries@,
                s == entry_vals(entries@),
                *expected == ColumnType::MapOf(*key_type, *value_type),
                all == coerced_entries(s, *expected),
                all == after(
                    entry_vals(done@),
                    coerced_entries(s.skip(it.index() as int), *expected),
                ),
        {
            let ghost i = it.index() as int;
            let ghost rest = s.skip(i);
            assert(rest[0] == (entry.0@, entry.1@));
            assert(rest.skip(1) =~= s.skip(i + 1));
            let (key, value): (CqlValue, CqlValue) = entry;
            let key: CqlValue = match coerce_value(key, key_type) {
                Ok(v) => v,
                Err(e) => {
                    return Err(e);
                },
            };
            let value: CqlValue = match coerce_value(value, value_type) {
                Ok(v) => v,
                Err(e) => {
                    return Err(e);
                },
            };
            proof {
                let done0 = entry_vals(done@);
                lemma_entry_vals_push(done@, (key, value));
                lemma_after(
                    done0,
                    seq![(key@, value@)],
                    coerced_entries(s.skip(i + 1), *expected),
                );
                assert(done0.push((key@, value@)) =~= done0 + seq![(key@, value@)]);
            }
            done.push((key, value));
        }
        proof {
            assert(s.skip(s.len() as int) =~= Seq::empty());
            lemma_after(entry_vals(done@), Seq::empty(), all);
        }
    }
    Ok(done)
}

/// Makes the elements of a tuple match their types.
fn coerce_tuple(elements: Vec<Option<CqlValue>>, types: &Vec<ColumnType>) -> (r: Result<
    Vec<Option<CqlValue>>,
    CodecError,
>)
    ensures
        match coerced_tuple(opt_vals(elements@), types@, 0) {
            Ok(s) => r is Ok && opt_vals(r->Ok_0@) == s,
            Err(e) => r == Err::<Vec<Option<CqlValue>>, CodecError>(e),
        },
    decreases types, 0int,
{
    let ghost s = opt_vals(elements@);
    let ghost all = coerced_tuple(s, types@, 0);
    let mut done: Vec<Option<CqlValue>> = Vec::new();
    let mut k: usize = 0;
    assert(opt_vals(done@) =~= Seq::empty());
    proof {
        lemma_after(Seq::empty(), Seq::empty(), all);
    }
    for e in it: elements
        invariant
            it.seq() == elements@,
            s == opt_vals(elements@),
            k <= types@.len(),
            k == it.index() || (k == types@.len() && it.index() >= k),
            all == coerced_tuple(s, types@, 0),
            all == after(opt_vals(done@), coerced_tuple(s, types@, k as nat)),
    {
        assert(s[it.index() as int] == opt_val(e));
        if k < types.len() {
            let element: Option<CqlValue> = match e {
                None => None,
                Some(v) => match coerce_value(v, &types[k]) {
                    Ok(v) => Some(v),
                    Err(err) => {
                        return Err(err);
                    },
                },
            };
            proof {
                let done0 = opt_vals(done@);
                lemma_opt_vals_push(done@, element);
                lemma_after(
                    done0,
                    seq![opt_val(element)],
                    coerced_tuple(s, types@, (k + 1) as nat),
                );
                assert(done0.push(opt_val(element)) =~= done0 + seq![opt_val(element)]);
            }
            done.push(element);
            k = k + 1;
        }
    }
    proof {
        lemma_after(opt_vals(done@), Seq::empty(), all);
    }
    Ok(done)
}

/// A copy of the value of the last field with a name.
fn find_field(fields: &Vec<(String, Option<CqlValue>)>, name: &String) -> (r: Option<CqlValue>)
    ensures
        opt_val(r) == field_named(field_vals(fields@), name@),
{
    let ghost s = field_vals(fields@);
    let mut i: usize = fields.len();
    assert(s.take(i as int) =~= s);
    while i > 0
        invariant
            i <= fields@.len(),
            s == field_vals(fields@),
            field_named(s, name@) == field_named(s.take(i as int), name@),
        decreases i,
    {
        i = i - 1;
        let ghost part = s.take(i + 1);
        assert(part.last() == (fields@[i as int].0@, opt_val(fields@[i as int].1)));
        assert(part.drop_last() =~= s.take(i as int));
        if fields[i].0 == *name {
            return match &fields[i].1 {
                Some(v) => Some(v.copy()),
                None => None,
            };
        }
    }
    None
}

/// Makes the fields of a user-defined type match its definition.
fn coerce_fields(
    fields: &Vec<(String, Option<CqlValue>)>,
    types: &Vec<(String, ColumnType)>,
) -> (r: Result<Vec<(String, Option<CqlValue>)>, CodecError>)
    ensures
        match coerced_fields(field_vals(fields@), types@, 0) {
            Ok(s) => r is Ok && field_vals(r->Ok_0@) == s,
            Err(e) => r == Err::<Vec<(String, Option<CqlValue>)>, CodecError>(e),
        },
    decreases types, 0int,
{
    let ghost s = field_vals(fields@);
    let ghost all = coerced_fields(s, types@, 0);
    let mut done: Vec<(String, Option<CqlValue>)> = Vec::new();
    let mut k: usize = 0;
    assert(field_vals(done@) =~= Seq::empty());
    proof {
        lemma_after(Seq::empty(), Seq::empty(), all);
    }
    while k < types.len()
        invariant
            s == field_vals(fields@),
            k <= types@.len(),
            all == coerced_fields(s, types@, 0),
            all == after(field_vals(done@), coerced_fields(s, types@, k as nat)),
        decreases types@.len() - k,
    {
        proof {
            assert(decreases_to!(types => types@[k as int]));
        }
        let field: Option<CqlValue> = match find_field(fields, &types[k].0) {
            None => None,
            Some(v) => match coerce_value(v, &types[k].1) {
                Ok(v) => Some(v),
                Err(err) => {
                    return Err(err);
                },
            },
        };
        let name: String = types[k].0.clone();
        proof {
            let done0 = field_vals(done@);
            lemma_field_vals_push(done@, (name, field));
            lemma_after(
                done0,
                seq![(name@, opt_val(field))],
                coerced_fields(s, types@, (k + 1) as nat),
            );
            assert(done0.push((name@, opt_val(field))) =~= done0 + seq![(name@, opt_val(field))]);
        }
        done.push((name, field));
        k = k + 1;
    }
    proof {
        lemma_after(field_vals(done@), Seq::empty(), all);
    }
    Ok(done)
}

/// Narrows an integer to the type of an integer column.
fn narrow_int(n: i64, native: NativeType, wide: Wide) -> (r: Result<CqlValue, CodecError>)
    ensures
        did_decode(fitted(n, native, wide), r),
{
    match native {
        NativeType::SmallInt => if -0x8000 <= n && n <= 0x7FFF {
            Ok(CqlValue::SmallInt(n as i16))
        } else {
            Err(CodecError::OutOfRange(wide, n, native))
        },
        NativeType::TinyInt => if -0x80 <= n && n <= 0x7F {
            Ok(CqlValue::TinyInt(n as i8))
        } else {
            Err(CodecError::OutOfRange(wide, n, native))
        },
        _ => if -0x8000_0000 <= n && n <= 0x7FFF_FFFF {
            Ok(CqlValue::Int(n as i32))
        } else {
            Err(CodecError::OutOfRange(wide, n, native))
        },
    }
}

/// Makes a value match a column type.
pub fn coerce_value(value: CqlValue, expected: &ColumnType) -> (r: Result<CqlValue, CodecError>)
    ensures
        did_decode(coerced(value@, *expected), r),
    decreases expected, 1int,
{
    match (value, expected) {
        (CqlValue::BigInt(v), ColumnType::Native(NativeType::Int)) => narrow_int(
            v,
            NativeType::Int,
            Wide::BigInt,
        ),
        (CqlValue::BigInt(v), ColumnType::Native(NativeType::SmallInt)) => narrow_int(
            v,
            NativeType::SmallInt,
            Wide::BigInt,
        ),
        (CqlValue::BigInt(v), ColumnType::Native(NativeType::TinyInt)) => narrow_int(
            v,
            NativeType::TinyInt,
            Wide::BigInt,
        ),
        (CqlValue::Int(v), ColumnType::Native(NativeType::SmallInt)) => narrow_int(
            v as i64,
            NativeType::SmallInt,
            Wide::Int,
        ),
        (CqlValue::Int(v), ColumnType::Native(NativeType::TinyInt)) => narrow_int(
            v as i64,
            NativeType::TinyInt,
            Wide::Int,
        ),
        (CqlValue::List(elements), ColumnType::List(inner)) => match coerce_all(elements, inner) {
            Ok(elements) => Ok(CqlValue::List(elements)),
            Err(e) => Err(e),
        },
        (CqlValue::SetOf(elements), ColumnType::SetOf(inner)) => match coerce_all(
            elements,
            inner,
        ) {
            Ok(elements) => Ok(CqlValue::SetOf(elements)),
            Err(e) => Err(e),
        },
        (CqlValue::MapOf(entries), ColumnType::MapOf(_, _)) => match coerce_entries(
            entries,
            expected,
        ) {
            Ok(entries) => Ok(CqlValue::MapOf(entries)),
            Err(e) => Err(e),
        },
        (CqlValue::Tuple(elements), ColumnType::Tuple(types)) => match coerce_tuple(
            elements,
            types,
        ) {
            Ok(elements) => Ok(CqlValue::Tuple(elements)),
            Err(e) => Err(e),
        },
        (
            CqlValue::UserDefinedType { fields, .. },
            ColumnType::UserDefinedType(definition),
        ) => match coerce_fields(&fields, &definition.field_types) {
            Ok(fields) => Ok(
                CqlValue::UserDefinedType {
                    keyspace: definition.keyspace.clone(),
                    name: definition.name.clone(),
                    fields,
                },
            ),
            Err(e) => Err(e),
        },
        (v, _) => Ok(v),
    }
}

/// The value that a text gives for a column whose type is written as text.
pub open spec fn text_val(
    text: Seq<char>,
    native: NativeType,
    address: Option<Seq<u8>>,
) -> Decoded {
    match native {
        NativeType::Decimal => decimal_val(read_of(decimal_of_text(text))),
        NativeType::Date => date_val(read_of(day_of_text(text, "%Y-%m-%d"@))),
        NativeType::Time => time_val(clock_of(text)),
        NativeType::Duration => match duration_of_text(text) {
            Ok(d) => Ok(Val::Duration(d)),
            Err(e) => Err(e),
        },
        NativeType::Inet => match address {
            Some(octets) => Ok(Val::Inet(octets)),
            None => Err(CodecError::InvalidInet),
        },
        _ => match uuid_of_text(text) {
            Ok(bytes) => Ok(Val::Timeuuid(bytes)),
            Err(_) => Err(CodecError::InvalidUuid),
        },
    }
}

/// The value that an integer gives for a column of a type that is held in an integer.
pub open spec fn integer_val(n: i64, native: NativeType) -> Decoded {
    match native {
        NativeType::Varint => Ok(Val::Varint(be8(n as int))),
        NativeType::Decimal => Ok(Val::Decimal(be8(n as int), 0)),
        NativeType::Timestamp => Ok(Val::Timestamp(n)),
        NativeType::Time => Ok(Val::Time(n)),
        NativeType::Counter => Ok(Val::Counter(n)),
        _ => fitted(n, native, Wide::BigIntValue),
    }
}

/// The column types that text is converted to.
pub open spec fn from_text(native: NativeType) -> bool {
    match native {
        NativeType::Decimal | NativeType::Date | NativeType::Time | NativeType::Duration
        | NativeType::Inet | NativeType::Timeuuid => true,
        _ => false,
    }
}

/// The column types that a 64-bit integer is converted to.
pub open spec fn from_integer(native: NativeType) -> bool {
    match native {
        NativeType::Varint | NativeType::Decimal | NativeType::Timestamp | NativeType::Time
        | NativeType::Counter | NativeType::Int | NativeType::SmallInt
        | NativeType::TinyInt => true,
        _ => false,
    }
}

/// A collection on the wire whose items are made to match the column's item types.
pub open spec fn from_collection(type_code: u16, bind: ColumnType) -> bool {
    match bind {
        ColumnType::List(_) => type_code == 0x0020 || type_code == 0x0032,
        ColumnType::SetOf(_) => type_code == 0x0020 || type_code == 0x0032 || type_code == 0x0022,
        ColumnType::MapOf(_, _) => type_code == 0x0021,
        ColumnType::Tuple(_) => type_code == 0x0031,
        ColumnType::UserDefinedType(_) => type_code == 0x0040,
        _ => false,
    }
}

/// A decoded collection made to match its column; a list becomes a set where the column is one.
pub open spec fn collection_val(v: Val, bind: ColumnType) -> Decoded {
    match (v, bind) {
        (Val::List(s), ColumnType::SetOf(t)) => match coerced_all(s, *t) {
            Ok(s) => Ok(Val::SetOf(s)),
            Err(e) => Err(e),
        },
        _ => coerced(v, bind),
    }
}

/// The value that data with a type code give for a column. `address` is the
/// internet address that the data spell as text, if they do.
pub open spec fn converted(
    data: Seq<u8>,
    type_code: u16,
    bind: Option<ColumnType>,
    address: Option<Seq<u8>>,
) -> Decoded {
    match bind {
        Some(ColumnType::Native(native)) => if type_code == 0x0007 && native == NativeType::Float
            && data.len() == 8 {
            Ok(Val::Float(narrow_spec(un8(data) as u64) as u32))
        } else if type_code == 0x0002 && from_integer(native) {
            match int_of(data) {
                Ok(n) => integer_val(n, native),
                Err(e) => Err(e),
            }
        } else if type_code == 0x000D && from_text(native) {
            if valid_utf8(data) {
                text_val(decode_utf8(data), native, address)
            } else {
                Err(CodecError::InvalidText(native))
            }
        } else {
            typed(data, type_code)
        },
        Some(bind) => if from_collection(type_code, bind) {
            match typed(data, type_code) {
                Ok(v) => collection_val(v, bind),
                Err(e) => Err(e),
            }
        } else {
            typed(data, type_code)
        },
        None => typed(data, type_code),
    }
}

/// The octets of an optional address.
pub open spec fn octets_of(address: Option<IpAddr>) -> Option<Seq<u8>> {
    match address {
        Some(a) => Some(a@),
        None => None,
    }
}

/// The value of a decimal column from what was parsed.
pub fn decimal_value(parsed: Option<(i128, u32)>) -> (r: Result<CqlValue, CodecError>)
    ensures
        did_decode(decimal_val(parsed), r),
{
    match parsed {
        Some((mantissa, scale)) => if scale <= 0x7FFF_FFFF {
            Ok(CqlValue::Decimal { mantissa: i128_bytes(mantissa), scale: scale as i32 })
        } else {
            Err(CodecError::InvalidDecimal)
        },
        None => Err(CodecError::InvalidDecimal),
    }
}

/// The value of a date column from the day that was parsed.
pub fn date_value(parsed: Option<i32>) -> (r: Result<CqlValue, CodecError>)
    ensures
        did_decode(date_val(parsed), r),
{
    match parsed {
        Some(day) => Ok(CqlValue::Date(day_to_date(day))),
        None => Err(CodecError::InvalidDate),
    }
}

/// The value of a time column from the time of day that was parsed.
pub fn time_value(parsed: Option<(u32, u32)>) -> (r: Result<CqlValue, CodecError>)
    ensures
        did_decode(time_val(parsed), r),
{
    match parsed {
        Some((seconds, nanos)) => Ok(CqlValue::Time(clock_to_nanos(seconds, nanos))),
        None => Err(CodecError::InvalidTime),
    }
}

/// Converts a text to the value of a column that is written as text.
fn text_value(text: &str, native: NativeType, address: Option<IpAddr>) -> (r: Result<
    CqlValue,
    CodecError,
>)
    requires
        from_text(native),
    ensures
        did_decode(text_val(text@, native, octets_of(address)), r),
{
    match native {
        NativeType::Decimal => decimal_value(only_read(parse_decimal(text))),
        NativeType::Date => date_value(only_read(parse_day(text, "%Y-%m-%d"))),
        NativeType::Time => {
            let clock: Option<(u32, u32)> = match parse_clock(text, "%H:%M:%S") {
                Ok(clock) => Some(clock),
                Err(_) => only_read(parse_clock(text, "%-H:%-M:%-S")),
            };
            time_value(clock)
        },
        NativeType::Duration => match parse_duration_string(text) {
            Ok(d) => Ok(CqlValue::Duration(d)),
            Err(e) => Err(e),
        },
        NativeType::Inet => match address {
            Some(a) => Ok(CqlValue::Inet(a)),
            None => Err(CodecError::InvalidInet),
        },
        _ => match parse_uuid(text) {
            Ok(bytes) => Ok(CqlValue::Timeuuid(bytes)),
            Err(_) => Err(CodecError::InvalidUuid),
        },
    }
}

/// Converts an integer to the value of a column that is held in one.
fn integer_value(n: i64, native: NativeType) -> (r: Result<CqlValue, CodecError>)
    requires
        from_integer(native),
    ensures
        did_decode(integer_val(n, native), r),
{
    match native {
        NativeType::Varint => Ok(CqlValue::Varint(i64_bytes(n))),
        NativeType::Decimal => Ok(CqlValue::Decimal { mantissa: i64_bytes(n), scale: 0 }),
        NativeType::Timestamp => Ok(CqlValue::Timestamp(n)),
        NativeType::Time => Ok(CqlValue::Time(n)),
        NativeType::Counter => Ok(CqlValue::Counter(n)),
        _ => narrow_int(n, native, Wide::BigIntValue),
    }
}

/// Whether text is converted for a column type.
pub(crate) fn is_from_text(native: NativeType) -> (r: bool)
    ensures
        r == from_text(native),
{
    matches!(
        native,
        NativeType::Decimal | NativeType::Date | NativeType::Time | NativeType::Duration
            | NativeType::Inet | NativeType::Timeuuid
    )
}

/// Whether a 64-bit integer is converted for a column type.
fn is_from_integer(native: NativeType) -> (r: bool)
    ensures
        r == from_integer(native),
{
    matches!(
        native,
        NativeType::Varint | NativeType::Decimal | NativeType::Timestamp | NativeType::Time
            | NativeType::Counter | NativeType::Int | NativeType::SmallInt | NativeType::TinyInt
    )
}

/// Whether the items of a collection are made to match a column type.
fn is_from_collection(type_code: u16, bind: &ColumnType) -> (r: bool)
    ensures
        r == from_collection(type_code, *bind),
{
    match bind {
        ColumnType::List(_) => type_code == 0x0020 || type_code == 0x0032,
        ColumnType::SetOf(_) => type_code == 0x0020 || type_code == 0x0032 || type_code == 0x0022,
        ColumnType::MapOf(_, _) => type_code == 0x0021,
        ColumnType::Tuple(_) => type_code == 0x0031,
        ColumnType::UserDefinedType(_) => type_code == 0x0040,
        _ => false,
    }
}

/// Decodes a value and makes it match its column.
pub fn convert_value(
    data: &[u8],
    type_code: u16,
    bind: Option<&ColumnType>,
    address: Option<IpAddr>,
) -> (r: Result<CqlValue, CodecError>)
    ensures
        did_decode(
            converted(
                data@,
                type_code,
                match bind {
                    Some(t) => Some(*t),
                    None => None,
                },
                octets_of(address),
            ),
            r,
        ),
{
    match bind {
        Some(ColumnType::Native(native)) => {
            let native: NativeType = *native;
            if type_code == 0x0007 && native == NativeType::Float && data.len() == 8 {
                return Ok(CqlValue::Float(narrow(read_be8(data))));
            }
            if type_code == 0x0002 && is_from_integer(native) {
                return match read_int_flexible(data) {
                    Ok(n) => integer_value(n, native),
                    Err(e) => Err(e),
                };
            }
            if type_code == 0x000D && is_from_text(native) {
                return match from_utf8(data) {
                    Some(text) => text_value(text.as_str(), native, address),
                    None => Err(CodecError::InvalidText(native)),
                };
            }
            decode_typed_value_by_code(data, type_code)
        },
        Some(bind) => {
            let decoded: CqlValue = match decode_typed_value_by_code(data, type_code) {
                Ok(v) => v,
                Err(e) => {
                    return Err(e);
                },
            };
            if !is_from_collection(type_code, bind) {
                return Ok(decoded);
            }
            match (decoded, bind) {
                (CqlValue::List(elements), ColumnType::SetOf(inner)) => match coerce_all(
                    elements,
                    inner,
                ) {
                    Ok(elements) => Ok(CqlValue::SetOf(elements)),
                    Err(e) => Err(e),
                },
                (decoded, _) => coerce_value(decoded, bind),
            }
        },
        None => decode_typed_value_by_code(data, type_code),
    }
}

/// A bind value as it came: with its type code, and null or bytes.
#[derive(Debug)]
pub enum RawValue {
    Null { type_code: u16 },
    Bytes { type_code: u16, data: Bytes },
}

/// The mathematical value of a [`RawValue`].
pub enum Raw {
    Null(u16),
    Bytes(u16, Seq<u8>),
}

impl View for RawValue {
    type V = Raw;

    open spec fn view(&self) -> Raw {
        match self {
            RawValue::Null { type_code } => Raw::Null(*type_code),
            RawValue::Bytes { type_code, data } => Raw::Bytes(*type_code, contents(*data)),
        }
    }
}

/// The values of a sequence of raw values.
pub open spec fn raws(s: Seq<RawValue>) -> Seq<Raw> {
    s.map_values(|r: RawValue| r@)
}

/// The value of a bind variable.
pub open spec fn bound(raw: Raw, bind: Option<ColumnType>, address: Option<Seq<u8>>) -> Result<
    Option<Val>,
    CodecError,
> {
    match raw {
        Raw::Null(_) => Ok(None),
        Raw::Bytes(type_code, data) => match converted(data, type_code, bind, address) {
            Ok(v) => Ok(Some(v)),
            Err(e) => Err(e),
        },
    }
}

/// The item at a position, if there is one.
pub open spec fn item_at<T>(s: Seq<T>, i: int) -> Option<T> {
    if 0 <= i < s.len() {
        Some(s[i])
    } else {
        None
    }
}

/// The values of the bind variables from the `k`-th on. A value behind the
/// last bind type is decoded by its code alone.
pub open spec fn bound_all(
    s: Seq<Raw>,
    types: Seq<ColumnType>,
    addresses: Seq<Option<IpAddr>>,
    k: nat,
) -> Result<Seq<Option<Val>>, CodecError>
    decreases s.len() - k,
{
    if k >= s.len() {
        Ok(Seq::empty())
    } else {
        let address = match item_at(addresses, k as int) {
            Some(a) => octets_of(a),
            None => None,
        };
        match bound(s[k as int], item_at(types, k as int), address) {
            Err(e) => Err(e),
            Ok(v) => after(seq![v], bound_all(s, types, addresses, k + 1)),
        }
    }
}

/// Converts the bind values of a statement to the types of its bind variables.
/// `addresses` holds, at the position of each value that is a text for an
/// address column, the address that the text spells.
pub fn convert_to_typed_values(
    raw_values: &Vec<RawValue>,
    bind_types: &Vec<ColumnType>,
    addresses: &Vec<Option<IpAddr>>,
) -> (r: Result<Vec<Option<CqlValue>>, CodecError>)
    ensures
        match bound_all(raws(raw_values@), bind_types@, addresses@, 0) {
            Ok(s) => r is Ok && opt_vals(r->Ok_0@) == s,
            Err(e) => r == Err::<Vec<Option<CqlValue>>, CodecError>(e),
        },
{
    let ghost s = raws(raw_values@);
    let ghost all = bound_all(s, bind_types@, addresses@, 0);
    let mut typed_values: Vec<Option<CqlValue>> = Vec::new();
    let mut k: usize = 0;
    assert(opt_vals(typed_values@) =~= Seq::empty());
    proof {
        lemma_after(Seq::empty(), Seq::empty(), all);
    }
    while k < raw_values.len()
        invariant
            k <= raw_values@.len(),
            s == raws(raw_values@),
            all == bound_all(s, bind_types@, addresses@, 0),
            all == after(
                opt_vals(typed_values@),
                bound_all(s, bind_types@, addresses@, k as nat),
            ),
        decreases raw_values@.len() - k,
    {
        assert(s[k as int] == raw_values@[k as int]@);
        let value: Option<CqlValue> = match &raw_values[k] {
            RawValue::Null { .. } => None,
            RawValue::Bytes { type_code, data } => {
                let bind: Option<&ColumnType> = if k < bind_types.len() {
                    Some(&bind_types[k])
                } else {
                    None
                };
                let address: Option<IpAddr> = if k < addresses.len() {
                    addresses[k]
                } else {
                    None
                };
                match convert_value(bytes_slice(data), *type_code, bind, address) {
                    Ok(v) => Some(v),
                    Err(e) => {
                        return Err(e);
                    },
                }
            },
        };
        proof {
            let done0 = opt_vals(typed_values@);
            lemma_opt_vals_push(typed_values@, value);
            lemma_after(
                done0,
                seq![opt_val(value)],
                bound_all(s, bind_types@, addresses@, (k + 1) as nat),
            );
            assert(done0.push(opt_val(value)) =~= done0 + seq![opt_val(value)]);
        }
        typed_values.push(value);
        k = k + 1;
    }
    proof {
        lemma_after(opt_vals(typed_values@), Seq::empty(), all);
    }
    Ok(typed_values)
}

/// The text of a bind value for an address column, which the caller resolves.
pub fn address_text(raw: &RawValue, bind: &ColumnType) -> (r: Option<String>)
    ensures
        match raw@ {
            Raw::Bytes(type_code, data) => if type_code == 0x000D && *bind == ColumnType::Native(
                NativeType::Inet,
            ) && valid_utf8(data) {
                r is Some && r->0@ == decode_utf8(data)
            } else {
                r is None
            },
            Raw::Null(_) => r is None,
        },
{
    match (raw, bind) {
        (
            RawValue::Bytes { type_code, data },
            ColumnType::Native(NativeType::Inet),
        ) => if *type_code == 0x000D {
            from_utf8(bytes_slice(data))
        } else {
            None
        },
        _ => None,
    }
}

} // verus!
