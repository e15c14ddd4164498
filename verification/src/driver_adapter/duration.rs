//! Durations written as text, such as "1mo2d3h4m5s".

use crate::error::CodecError;
use crate::ipc::decode::{low_i32, wrap_i32};
use crate::number::{
    all_digits, decimal, digits_value, is_digit, law_decimal_spells_number, parse_digits,
    signed_decimal,
};
use crate::text::chars_of;
use crate::value::CqlDuration;
use vstd::prelude::*;

verus! {

/// The number that a text of digits, with or without a sign in front, spells,
/// if it is one of 64 bits.
pub open spec fn number_of(s: Seq<char>) -> Option<i64> {
    let negative = s.len() > 0 && s[0] == '-';
    let digits = if negative { s.skip(1) } else { s };
    let n = if negative { -digits_value(digits) } else { digits_value(digits) };
    if all_digits(digits) && i64::MIN <= n <= i64::MAX {
        Some(n as i64)
    } else {
        None
    }
}

/// A unit of time in a duration.
#[derive(Debug, Clone, Copy, PartialEq, Eq, Structural)]
pub enum Unit {
    Year,
    Month,
    Day,
    Hour,
    Minute,
    Second,
    Milli,
    Micro,
    Nano,
}

/// The unit at the front of a text, and how many characters it takes.
pub open spec fn unit_at(s: Seq<char>) -> Option<(Unit, nat)> {
    let next = if s.len() > 1 { Some(s[1]) } else { None };
    if s[0] == 'y' {
        Some((Unit::Year, 1))
    } else if s[0] == 'm' {
        if next == Some('o') {
            Some((Unit::Month, 2))
        } else if next == Some('s') {
            Some((Unit::Milli, 2))
        } else {
            Some((Unit::Minute, 1))
        }
    } else if s[0] == 'd' {
        Some((Unit::Day, 1))
    } else if s[0] == 'h' {
        Some((Unit::Hour, 1))
    } else if s[0] == 's' {
        Some((Unit::Second, 1))
    } else if s[0] == 'n' {
        Some((Unit::Nano, if next == Some('s') { 2 } else { 1 }))
    } else if s[0] == 'u' || s[0] == '\u{b5}' {
        Some((Unit::Micro, if next == Some('s') { 2 } else { 1 }))
    } else {
        None
    }
}

/// The nanoseconds in a unit of the day.
pub open spec fn nanos_per(unit: Unit) -> int {
    match unit {
        Unit::Hour => 3_600_000_000_000,
        Unit::Minute => 60_000_000_000,
        Unit::Second => 1_000_000_000,
        Unit::Milli => 1_000_000,
        Unit::Micro => 1_000,
        _ => 1,
    }
}

/// A duration with so many units more. Of a number of years, months or days
/// the lower 32 bits count; nothing where a sum or product is out of range.
pub open spec fn plus(d: CqlDuration, unit: Unit, n: i64) -> Option<CqlDuration> {
    match unit {
        Unit::Year => if i64::MIN <= n * 12 <= i64::MAX && i32::MIN <= d.months + low_i32(
            (n * 12) as i64,
        ) <= i32::MAX {
            Some(CqlDuration { months: (d.months + low_i32((n * 12) as i64)) as i32, ..d })
        } else {
            None
        },
        Unit::Month => if i32::MIN <= d.months + low_i32(n) <= i32::MAX {
            Some(CqlDuration { months: (d.months + low_i32(n)) as i32, ..d })
        } else {
            None
        },
        Unit::Day => if i32::MIN <= d.days + low_i32(n) <= i32::MAX {
            Some(CqlDuration { days: (d.days + low_i32(n)) as i32, ..d })
        } else {
            None
        },
        _ => if i64::MIN <= n * nanos_per(unit) <= i64::MAX && i64::MIN <= d.nanoseconds + n
            * nanos_per(unit) <= i64::MAX {
            Some(CqlDuration { nanoseconds: (d.nanoseconds + n * nanos_per(unit)) as i64, ..d })
        } else {
            None
        },
    }
}

/// The duration that the rest of a text adds to `d`, where `number` are the
/// characters of the number that was begun. A unit without a number counts
/// zero times, and a number without a unit does not count.
pub open spec fn duration_rest(s: Seq<char>, number: Seq<char>, d: CqlDuration) -> Result<
    CqlDuration,
    CodecError,
>
    decreases s.len(),
{
    if s.len() == 0 {
        Ok(d)
    } else if is_digit(s[0]) || s[0] == '-' {
        duration_rest(s.skip(1), number.push(s[0]), d)
    } else {
        let n = if number.len() == 0 { Some(0) } else { number_of(number) };
        match n {
            None => Err(CodecError::DurationNumber),
            Some(n) => match unit_at(s) {
                None => Err(CodecError::DurationUnit(s[0])),
                Some((unit, len)) => match plus(d, unit, n) {
                    None => Err(CodecError::DurationRange),
                    Some(d) => duration_rest(s.skip(len as int), Seq::empty(), d),
                },
            },
        }
    }
}

/// The duration that a text spells.
pub open spec fn duration_of_text(s: Seq<char>) -> Result<CqlDuration, CodecError> {
    duration_rest(s, Seq::empty(), CqlDuration { months: 0, days: 0, nanoseconds: 0 })
}

/// The characters of the number that the reading of a text stops at, where it
/// stops at one.
pub open spec fn stops_at(s: Seq<char>, number: Seq<char>, d: CqlDuration) -> Seq<char>
    decreases s.len(),
{
    if s.len() == 0 {
        number
    } else if is_digit(s[0]) || s[0] == '-' {
        stops_at(s.skip(1), number.push(s[0]), d)
    } else {
        let n = if number.len() == 0 { Some(0) } else { number_of(number) };
        match n {
            None => number,
            Some(n) => match unit_at(s) {
                None => number,
                Some((unit, len)) => match plus(d, unit, n) {
                    None => number,
                    Some(d) => stops_at(s.skip(len as int), Seq::empty(), d),
                },
            },
        }
    }
}

/// The characters of the last number that is looked at in a text that spells no duration.
pub open spec fn last_number(s: Seq<char>) -> Seq<char> {
    stops_at(s, Seq::empty(), CqlDuration { months: 0, days: 0, nanoseconds: 0 })
}

/// Reads a number of 64 bits.
pub fn parse_number(s: &Vec<char>) -> (r: Option<i64>)
    ensures
        r == number_of(s@),
{
    if s.len() > 0 && s[0] == '-' {
        match parse_digits(s, 1, 0x8000_0000_0000_0000) {
            Some(n) => Some((-(n as i128)) as i64),
            None => None,
        }
    } else {
        assert(s@.skip(0) =~= s@);
        match parse_digits(s, 0, 0x7FFF_FFFF_FFFF_FFFF) {
            Some(n) => Some(n as i64),
            None => None,
        }
    }
}

/// The unit at a position of a text, and how many characters it takes.
fn read_unit(s: &Vec<char>, i: usize) -> (r: Option<(Unit, usize)>)
    requires
        i < s@.len(),
    ensures
        match unit_at(s@.skip(i as int)) {
            Some((unit, len)) => r == Some((unit, len as usize)),
            None => r is None,
        },
        r matches Some((_, len)) ==> 1 <= len <= s@.len() - i,
{
    let c: char = s[i];
    let next: Option<char> = if s.len() - i > 1 {
        Some(s[i + 1])
    } else {
        None
    };
    let ghost t = s@.skip(i as int);
    assert(t[0] == c);
    assert(t.len() > 1 ==> t[1] == s@[i + 1]);
    match c {
        'y' => Some((Unit::Year, 1)),
        'm' => match next {
            Some('o') => Some((Unit::Month, 2)),
            Some('s') => Some((Unit::Milli, 2)),
            _ => Some((Unit::Minute, 1)),
        },
        'd' => Some((Unit::Day, 1)),
        'h' => Some((Unit::Hour, 1)),
        's' => Some((Unit::Second, 1)),
        'n' => match next {
            Some('s') => Some((Unit::Nano, 2)),
            _ => Some((Unit::Nano, 1)),
        },
        'u' | '\u{b5}' => match next {
            Some('s') => Some((Unit::Micro, 2)),
            _ => Some((Unit::Micro, 1)),
        },
        _ => None,
    }
}

/// Adds so many units to a duration.
fn add_units(d: CqlDuration, unit: Unit, n: i64) -> (r: Option<CqlDuration>)
    ensures
        r == plus(d, unit, n),
{
    let per: i64 = match unit {
        Unit::Year => {
            let months: i64 = match n.checked_mul(12) {
                Some(months) => months,
                None => {
                    return None;
                },
            };
            return match d.months.checked_add(wrap_i32(months)) {
                Some(months) => Some(CqlDuration { months, ..d }),
                None => None,
            };
        },
        Unit::Month => {
            return match d.months.checked_add(wrap_i32(n)) {
                Some(months) => Some(CqlDuration { months, ..d }),
                None => None,
            };
        },
        Unit::Day => {
            return match d.days.checked_add(wrap_i32(n)) {
                Some(days) => Some(CqlDuration { days, ..d }),
                None => None,
            };
        },
        Unit::Hour => 3_600_000_000_000,
        Unit::Minute => 60_000_000_000,
        Unit::Second => 1_000_000_000,
        Unit::Milli => 1_000_000,
        Unit::Micro => 1_000,
        Unit::Nano => 1,
    };
    match n.checked_mul(per) {
        Some(more) => match d.nanoseconds.checked_add(more) {
            Some(nanoseconds) => Some(CqlDuration { nanoseconds, ..d }),
            None => None,
        },
        None => None,
    }
}

/// Parses a duration, and gives with a refusal the last number that was looked at.
pub(crate) fn read_duration(s: &str) -> (r: Result<CqlDuration, (CodecError, Vec<char>)>)
    ensures
        match duration_of_text(s@) {
            Ok(d) => r matches Ok(read) && read == d,
            Err(e) => r matches Err((refusal, number)) && refusal == e && number@ == last_number(
                s@,
            ),
        },
{
    let chars: Vec<char> = chars_of(s);
    let mut d: CqlDuration = CqlDuration { months: 0, days: 0, nanoseconds: 0 };
    let mut number: Vec<char> = Vec::new();
    let mut i: usize = 0;
    assert(chars@.skip(0) =~= chars@);
    while i < chars.len()
        invariant
            i <= chars@.len(),
            chars@ == s@,
            duration_of_text(s@) == duration_rest(chars@.skip(i as int), number@, d),
            last_number(s@) == stops_at(chars@.skip(i as int), number@, d),
        decreases chars@.len() - i,
    {
        let ghost rest = chars@.skip(i as int);
        let c: char = chars[i];
        assert(rest[0] == c);
        if ('0' <= c && c <= '9') || c == '-' {
            assert(rest.skip(1) =~= chars@.skip(i + 1));
            number.push(c);
            i = i + 1;
        } else {
            let n: i64 = if number.len() == 0 {
                0
            } else {
                match parse_number(&number) {
                    Some(n) => n,
                    None => {
                        return Err((CodecError::DurationNumber, number));
                    },
                }
            };
            match read_unit(&chars, i) {
                None => {
                    return Err((CodecError::DurationUnit(c), number));
                },
                Some((unit, len)) => {
                    match add_units(d, unit, n) {
                        None => {
                            return Err((CodecError::DurationRange, number));
                        },
                        Some(sum) => {
                            d = sum;
                        },
                    }
                    assert(rest.skip(len as int) =~= chars@.skip(i + len));
                    number = Vec::new();
                    i = i + len;
                },
            }
        }
    }
    Ok(d)
}

/// Parses a duration such as "1mo2d3h4m5s" or "1y2mo3d4h5m6s".
pub fn parse_duration_string(s: &str) -> (r: Result<CqlDuration, CodecError>)
    ensures
        r == duration_of_text(s@),
{
    match read_duration(s) {
        Ok(d) => Ok(d),
        Err((e, _)) => Err(e),
    }
}

/// A number of units of time, such as "3h".
pub struct Span {
    pub count: i64,
    pub unit: Unit,
}

/// How a unit is written.
pub open spec fn unit_name(unit: Unit) -> Seq<char> {
    match unit {
        Unit::Year => seq!['y'],
        Unit::Month => seq!['m', 'o'],
        Unit::Day => seq!['d'],
        Unit::Hour => seq!['h'],
        Unit::Minute => seq!['m'],
        Unit::Second => seq!['s'],
        Unit::Milli => seq!['m', 's'],
        Unit::Micro => seq!['u', 's'],
        Unit::Nano => seq!['n', 's'],
    }
}

/// A text of spans, one behind the other.
pub open spec fn spelled(spans: Seq<Span>) -> Seq<char>
    decreases spans.len(),
{
    if spans.len() == 0 {
        Seq::empty()
    } else {
        signed_decimal(spans[0].count as int) + (unit_name(spans[0].unit) + spelled(spans.skip(1)))
    }
}

/// The months in a span.
pub open spec fn months_in(span: Span) -> int {
    match span.unit {
        Unit::Year => span.count * 12,
        Unit::Month => span.count as int,
        _ => 0,
    }
}

/// The days in a span.
pub open spec fn days_in(span: Span) -> int {
    if span.unit is Day {
        span.count as int
    } else {
        0
    }
}

/// The nanoseconds in a span.
pub open spec fn nanos_in(span: Span) -> int {
    match span.unit {
        Unit::Hour => span.count * 3_600_000_000_000,
        Unit::Minute => span.count * 60_000_000_000,
        Unit::Second => span.count * 1_000_000_000,
        Unit::Milli => span.count * 1_000_000,
        Unit::Micro => span.count * 1_000,
        Unit::Nano => span.count as int,
        _ => 0,
    }
}

/// A part of a span, summed over spans.
pub open spec fn total(spans: Seq<Span>, part: spec_fn(Span) -> int) -> int
    decreases spans.len(),
{
    if spans.len() == 0 {
        0
    } else {
        part(spans[0]) + total(spans.skip(1), part)
    }
}

/// The sums that are made on the way, from a duration on, are in range.
pub open spec fn sums_fit(spans: Seq<Span>, months: int, days: int, nanos: int) -> bool
    decreases spans.len(),
{
    spans.len() > 0 ==> {
        let (m, d, n) = (months_in(spans[0]), days_in(spans[0]), nanos_in(spans[0]));
        &&& i32::MIN <= m <= i32::MAX && i32::MIN <= months + m <= i32::MAX
        &&& i32::MIN <= d <= i32::MAX && i32::MIN <= days + d <= i32::MAX
        &&& i64::MIN <= n <= i64::MAX && i64::MIN <= nanos + n <= i64::MAX
        &&& sums_fit(spans.skip(1), months + m, days + d, nanos + n)
    }
}

/// The characters of a number are gathered.
proof fn lemma_gathered(number: Seq<char>, rest: Seq<char>, begun: Seq<char>, d: CqlDuration)
    requires
        forall|i: int| 0 <= i < number.len() ==> is_digit(#[trigger] number[i]) || number[i] == '-',
    ensures
        duration_rest(number + rest, begun, d) == duration_rest(rest, begun + number, d),
    decreases number.len(),
{
    if number.len() == 0 {
        assert(number + rest =~= rest);
        assert(begun + number =~= begun);
    } else {
        let more = number.skip(1);
        assert((number + rest).skip(1) =~= more + rest);
        assert((number + rest)[0] == number[0]);
        assert(forall|i: int| 0 <= i < more.len() ==> more[i] == number[i + 1]);
        lemma_gathered(more, rest, begun.push(number[0]), d);
        assert(begun.push(number[0]) + more =~= begun + number);
    }
}

/// A number that was written is read.
proof fn lemma_count(n: i64)
    ensures
        number_of(signed_decimal(n as int)) == Some(n),
        signed_decimal(n as int).len() > 0,
        forall|i: int|
            0 <= i < signed_decimal(n as int).len() ==> is_digit(
                #[trigger] signed_decimal(n as int)[i],
            ) || signed_decimal(n as int)[i] == '-',
{
    let s = signed_decimal(n as int);
    if n < 0 {
        law_decimal_spells_number(-n as nat);
        let digits = decimal(-n as nat);
        assert(s.skip(1) =~= digits);
        assert forall|i: int| 0 < i < s.len() implies is_digit(#[trigger] s[i]) by {
            assert(s[i] == digits[i - 1]);
        }
    } else {
        law_decimal_spells_number(n as nat);
        assert(is_digit(s[0]));
    }
}

/// A unit is found by its name, where a number or nothing follows.
proof fn lemma_unit(unit: Unit, rest: Seq<char>)
    requires
        rest.len() > 0 ==> is_digit(rest[0]) || rest[0] == '-',
    ensures
        unit_at(unit_name(unit) + rest) == Some((unit, unit_name(unit).len())),
        (unit_name(unit) + rest).skip(unit_name(unit).len() as int) == rest,
        !is_digit((unit_name(unit) + rest)[0]) && (unit_name(unit) + rest)[0] != '-',
        (unit_name(unit) + rest).len() > 0,
{
    let s = unit_name(unit) + rest;
    assert(s.skip(unit_name(unit).len() as int) =~= rest);
    if rest.len() > 0 {
        assert(s[unit_name(unit).len() as int] == rest[0]);
    }
    assert(s[0] == unit_name(unit)[0]);
    if unit_name(unit).len() > 1 {
        assert(s[1] == unit_name(unit)[1]);
    }
}

/// From a duration on, the parts of spans add up.
proof fn lemma_adds_up(spans: Seq<Span>, d: CqlDuration)
    requires
        sums_fit(spans, d.months as int, d.days as int, d.nanoseconds as int),
    ensures
        duration_rest(spelled(spans), Seq::empty(), d) matches Ok(r) && r.months == d.months
            + total(spans, |s: Span| months_in(s)) && r.days == d.days + total(
            spans,
            |s: Span| days_in(s),
        ) && r.nanoseconds == d.nanoseconds + total(spans, |s: Span| nanos_in(s)),
    decreases spans.len(),
{
    let none = Seq::<char>::empty();
    if spans.len() > 0 {
        let span = spans[0];
        let more = spans.skip(1);
        let number = signed_decimal(span.count as int);
        let tail = spelled(more);
        let behind = unit_name(span.unit) + tail;
        lemma_count(span.count);
        lemma_gathered(number, behind, none, d);
        assert(none + number =~= number);
        if more.len() > 0 {
            lemma_count(more[0].count);
            let first = signed_decimal(more[0].count as int);
            assert(tail[0] == first[0]);
        }
        lemma_unit(span.unit, tail);
        let next = CqlDuration {
            months: (d.months + months_in(span)) as i32,
            days: (d.days + days_in(span)) as i32,
            nanoseconds: (d.nanoseconds + nanos_in(span)) as i64,
        };
        assert(plus(d, span.unit, span.count) == Some(next));
        lemma_adds_up(more, next);
    }
}

/// A text of spans spells the sums of their months, days and nanoseconds: a
/// year is twelve months, and the units of the day are nanoseconds.
pub proof fn law_spans_add_up(spans: Seq<Span>)
    requires
        sums_fit(spans, 0, 0, 0),
    ensures
        duration_of_text(spelled(spans)) matches Ok(r) && r.months == total(
            spans,
            |s: Span| months_in(s),
        ) && r.days == total(spans, |s: Span| days_in(s)) && r.nanoseconds == total(
            spans,
            |s: Span| nanos_in(s),
        ),
{
    lemma_adds_up(spans, CqlDuration { months: 0, days: 0, nanoseconds: 0 });
}

/// A unit that is not known is named, whatever number stands before it.
pub proof fn law_unknown_unit_is_named(n: i64, c: char, rest: Seq<char>)
    requires
        !is_digit(c),
        c != '-',
        !seq!['y', 'm', 'd', 'h', 's', 'n', 'u', '\u{b5}'].contains(c),
    ensures
        duration_of_text(signed_decimal(n as int) + (seq![c] + rest)) == Err::<
            CqlDuration,
            CodecError,
        >(CodecError::DurationUnit(c)),
{
    let none = Seq::<char>::empty();
    let number = signed_decimal(n as int);
    let known = seq!['y', 'm', 'd', 'h', 's', 'n', 'u', '\u{b5}'];
    lemma_count(n);
    lemma_gathered(
        number,
        seq![c] + rest,
        none,
        CqlDuration { months: 0, days: 0, nanoseconds: 0 },
    );
    assert(none + number =~= number);
    assert((seq![c] + rest)[0] == c);
    assert(known[0] == 'y' && known[1] == 'm' && known[2] == 'd' && known[3] == 'h' && known[4]
        == 's' && known[5] == 'n' && known[6] == 'u' && known[7] == '\u{b5}');
}

} // verus!
