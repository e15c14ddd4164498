//! Numbers as decimal text.

use crate::text::{ascii_lower, chars_of, eq_ignore_case, same_ignoring_case};
use vstd::prelude::*;
use vstd::string::*;

verus! {

/// A digit from 0 to 9.
pub open spec fn is_digit(c: char) -> bool {
    '0' <= c <= '9'
}

/// There are digits, and nothing else.
pub open spec fn all_digits(s: Seq<char>) -> bool {
    s.len() > 0 && forall|i: int| 0 <= i < s.len() ==> is_digit(#[trigger] s[i])
}

/// The number that digits spell.
pub open spec fn digits_value(s: Seq<char>) -> int
    decreases s.len(),
{
    if s.len() == 0 {
        0
    } else {
        digits_value(s.drop_last()) * 10 + (s.last() as int - '0' as int)
    }
}

/// More digits spell no smaller number.
pub proof fn lemma_digits_value_grows(s: Seq<char>, i: int)
    requires
        0 <= i <= s.len(),
        forall|j: int| 0 <= j < s.len() ==> is_digit(#[trigger] s[j]),
    ensures
        0 <= digits_value(s.take(i)) <= digits_value(s),
    decreases s.len(),
{
    if i == s.len() {
        assert(s.take(i) =~= s);
        if s.len() > 0 {
            assert(s.drop_last() =~= s.take(i - 1));
            lemma_digits_value_grows(s.drop_last(), i - 1);
            assert(s.drop_last().take(i - 1) =~= s.drop_last());
            assert(is_digit(s[s.len() - 1]));
        }
    } else {
        let init = s.drop_last();
        lemma_digits_value_grows(init, i);
        assert(init.take(i) =~= s.take(i));
        assert(is_digit(s[s.len() - 1]));
    }
}

/// The unsigned number that a text spells, with or without a plus in front, if it is at most `max`.
pub open spec fn unsigned_of(s: Seq<char>, max: int) -> Option<int> {
    let digits = if s.len() > 0 && s[0] == '+' { s.skip(1) } else { s };
    if all_digits(digits) && digits_value(digits) <= max {
        Some(digits_value(digits))
    } else {
        None
    }
}

/// Reads the digits from a position on.
pub fn parse_digits(s: &Vec<char>, start: usize, max: u64) -> (r: Option<u64>)
    requires
        start <= s@.len(),
    ensures
        match r {
            Some(n) => all_digits(s@.skip(start as int)) && digits_value(s@.skip(start as int)) == n
                && n <= max,
            None => !all_digits(s@.skip(start as int)) || digits_value(s@.skip(start as int)) > max,
        },
{
    let ghost digits = s@.skip(start as int);
    if s.len() == start {
        return None;
    }
    let mut value: u128 = 0;
    let mut i: usize = start;
    while i < s.len()
        invariant
            start <= i <= s@.len(),
            digits == s@.skip(start as int),
            value == digits_value(digits.take(i - start)),
            0 <= value <= max,
            forall|j: int| 0 <= j < i - start ==> is_digit(#[trigger] digits[j]),
        decreases s@.len() - i,
    {
        let c: char = s[i];
        let ghost k = i - start;
        assert(digits[k] == c);
        if !('0' <= c && c <= '9') {
            return None;
        }
        assert(digits.take(k + 1).drop_last() =~= digits.take(k));
        value = value * 10 + (c as u32 - '0' as u32) as u128;
        if value > max as u128 {
            proof {
                if all_digits(digits) {
                    lemma_digits_value_grows(digits, k + 1);
                }
            }
            return None;
        }
        i = i + 1;
    }
    assert(digits.take(i - start) =~= digits);
    Some(value as u64)
}

/// Reads an unsigned number of 64 bits.
pub fn parse_u64(text: &str) -> (r: Option<u64>)
    ensures
        match r {
            Some(n) => unsigned_of(text@, u64::MAX as int) == Some(n as int),
            None => unsigned_of(text@, u64::MAX as int) is None,
        },
{
    let chars: Vec<char> = chars_of(text);
    let start: usize = if chars.len() > 0 && chars[0] == '+' {
        1
    } else {
        0
    };
    assert(chars@.skip(0) =~= chars@);
    parse_digits(&chars, start, 0xFFFF_FFFF_FFFF_FFFF)
}

/// Reads an unsigned number of the machine's word size.
pub fn parse_usize(text: &str) -> (r: Option<usize>)
    ensures
        match r {
            Some(n) => unsigned_of(text@, usize::MAX as int) == Some(n as int),
            None => unsigned_of(text@, usize::MAX as int) is None,
        },
{
    let chars: Vec<char> = chars_of(text);
    let start: usize = if chars.len() > 0 && chars[0] == '+' {
        1
    } else {
        0
    };
    assert(chars@.skip(0) =~= chars@);
    match parse_digits(&chars, start, usize::MAX as u64) {
        Some(n) => Some(n as usize),
        None => None,
    }
}

/// The decimal digits of a number.
pub open spec fn decimal(n: nat) -> Seq<char>
    decreases n,
{
    if n < 10 {
        seq![('0' as u32 + n) as char]
    } else {
        decimal(n / 10).push(('0' as u32 + n % 10) as char)
    }
}

/// The decimal text of a signed number.
pub open spec fn signed_decimal(n: int) -> Seq<char> {
    if n < 0 {
        seq!['-'] + decimal((-n) as nat)
    } else {
        decimal(n as nat)
    }
}

/// The text of a digit.
fn digit_text(d: u64) -> (text: &'static str)
    requires
        d < 10,
    ensures
        text@ == seq![('0' as u32 + d) as char],
{
    proof {
        reveal_strlit("0");
        reveal_strlit("1");
        reveal_strlit("2");
        reveal_strlit("3");
        reveal_strlit("4");
        reveal_strlit("5");
        reveal_strlit("6");
        reveal_strlit("7");
        reveal_strlit("8");
        reveal_strlit("9");
    }
    let text: &'static str = match d {
        0 => "0",
        1 => "1",
        2 => "2",
        3 => "3",
        4 => "4",
        5 => "5",
        6 => "6",
        7 => "7",
        8 => "8",
        _ => "9",
    };
    assert(text@ =~= seq![('0' as u32 + d) as char]);
    text
}

/// Appends a number to a text.
pub fn push_decimal(text: &mut String, n: u64)
    ensures
        final(text)@ == old(text)@ + decimal(n as nat),
    decreases n,
{
    if n >= 10 {
        push_decimal(text, n / 10);
    }
    text.append(digit_text(n % 10));
    assert(text@ =~= old(text)@ + decimal(n as nat));
}

/// The decimal text of a number.
pub fn decimal_text(n: u64) -> (text: String)
    ensures
        text@ == decimal(n as nat),
{
    let mut text: String = String::new();
    push_decimal(&mut text, n);
    assert(text@ =~= decimal(n as nat));
    text
}

/// The decimal text of a signed number.
pub fn signed_decimal_text(n: i64) -> (text: String)
    ensures
        text@ == signed_decimal(n as int),
{
    let mut text: String = String::new();
    if n < 0 {
        proof {
            reveal_strlit("-");
        }
        text.append("-");
        assert(text@ =~= seq!['-']);
        push_decimal(&mut text, (-(n as i128)) as u64);
    } else {
        push_decimal(&mut text, n as u64);
    }
    assert(text@ =~= signed_decimal(n as int));
    text
}

/// The decimal text of a number spells that number.
pub proof fn law_decimal_spells_number(n: nat)
    ensures
        all_digits(decimal(n)),
        digits_value(decimal(n)) == n,
    decreases n,
{
    if n < 10 {
        let s = decimal(n);
        assert(s.drop_last() =~= Seq::empty());
        assert(s.last() as int == '0' as int + n);
        assert(digits_value(s.drop_last()) == 0);
    } else {
        law_decimal_spells_number(n / 10);
        let s = decimal(n);
        assert(s.drop_last() =~= decimal(n / 10));
        assert(s.last() as int == '0' as int + n % 10);
        assert(digits_value(s) == (n / 10) * 10 + n % 10);
        assert(forall|i: int| 0 <= i < s.len() - 1 ==> s[i] == decimal(n / 10)[i]);
    }
}

/// A number that was written is read back.
pub proof fn law_number_round_trip(n: u64)
    ensures
        unsigned_of(decimal(n as nat), u64::MAX as int) == Some(n as int),
{
    law_decimal_spells_number(n as nat);
    assert(is_digit(decimal(n as nat)[0]));
}

/// The hexadecimal digit of a number below sixteen.
pub open spec fn hex_digit(n: int) -> char {
    if n < 10 {
        (n + '0' as int) as char
    } else {
        (n - 10 + 'a' as int) as char
    }
}

/// A number in hexadecimal, without leading zeros.
pub open spec fn hex(n: nat) -> Seq<char>
    decreases n,
{
    if n < 16 {
        seq![hex_digit(n as int)]
    } else {
        hex(n / 16).push(hex_digit(n as int % 16))
    }
}

/// The hexadecimal digit of a number below sixteen.
fn hex_char(n: u64) -> (c: &'static str)
    requires
        n < 16,
    ensures
        c@ == seq![hex_digit(n as int)],
{
    proof {
        reveal_strlit("0");
        reveal_strlit("1");
        reveal_strlit("2");
        reveal_strlit("3");
        reveal_strlit("4");
        reveal_strlit("5");
        reveal_strlit("6");
        reveal_strlit("7");
        reveal_strlit("8");
        reveal_strlit("9");
        reveal_strlit("a");
        reveal_strlit("b");
        reveal_strlit("c");
        reveal_strlit("d");
        reveal_strlit("e");
        reveal_strlit("f");
    }
    match n {
        0 => "0",
        1 => "1",
        2 => "2",
        3 => "3",
        4 => "4",
        5 => "5",
        6 => "6",
        7 => "7",
        8 => "8",
        9 => "9",
        10 => "a",
        11 => "b",
        12 => "c",
        13 => "d",
        14 => "e",
        _ => "f",
    }
}

/// Appends a number in hexadecimal to a text.
fn push_hex(text: &mut String, n: u64)
    ensures
        final(text)@ == old(text)@ + hex(n as nat),
    decreases n,
{
    if n >= 16 {
        push_hex(text, n / 16);
    }
    text.append(hex_char(n % 16));
    assert(text@ =~= old(text)@ + hex(n as nat));
}

/// A number in hexadecimal, without leading zeros.
pub fn hex_text(n: u64) -> (text: String)
    ensures
        text@ == hex(n as nat),
{
    let mut text: String = String::new();
    push_hex(&mut text, n);
    assert(text@ =~= hex(n as nat));
    text
}

/// The signed number that a text spells, with or without a sign in front, if 64 bits hold it.
pub open spec fn signed_of(s: Seq<char>) -> Option<int> {
    if s.len() > 0 && s[0] == '-' {
        let digits = s.skip(1);
        if all_digits(digits) && -digits_value(digits) >= i64::MIN {
            Some(-digits_value(digits))
        } else {
            None
        }
    } else {
        unsigned_of(s, i64::MAX as int)
    }
}

/// Reads a signed number of 64 bits.
pub fn parse_i64(text: &str) -> (r: Option<i64>)
    ensures
        match r {
            Some(n) => signed_of(text@) == Some(n as int),
            None => signed_of(text@) is None,
        },
{
    let chars: Vec<char> = chars_of(text);
    assert(chars@.skip(0) =~= chars@);
    if chars.len() > 0 && chars[0] == '-' {
        match parse_digits(&chars, 1, 0x8000_0000_0000_0000) {
            Some(n) => if n == 0x8000_0000_0000_0000 {
                Some(i64::MIN)
            } else {
                Some(-(n as i64))
            },
            None => None,
        }
    } else {
        let start: usize = if chars.len() > 0 && chars[0] == '+' {
            1
        } else {
            0
        };
        match parse_digits(&chars, start, 0x7FFF_FFFF_FFFF_FFFF) {
            Some(n) => Some(n as i64),
            None => None,
        }
    }
}

/// A text that spells a signed number is read as that number.
pub proof fn law_signed_number_round_trip(n: i64)
    ensures
        signed_of(signed_decimal(n as int)) == Some(n as int),
{
    if n < 0 {
        let s = signed_decimal(n as int);
        law_decimal_spells_number(-n as nat);
        assert(s.skip(1) =~= decimal(-n as nat));
    } else {
        law_decimal_spells_number(n as nat);
        let s = decimal(n as nat);
        assert(is_digit(s[0]));
    }
}

/// The number of digits at the front.
pub open spec fn leading_digits(s: Seq<char>) -> nat
    decreases s.len(),
{
    if s.len() == 0 || !is_digit(s[0]) {
        0
    } else {
        1 + leading_digits(s.skip(1))
    }
}

/// Nothing, or an exponent: an `e`, an optional sign, and digits.
pub open spec fn is_exponent(s: Seq<char>) -> bool {
    s.len() == 0 || ((s[0] == 'e' || s[0] == 'E') && {
        let t = s.skip(1);
        all_digits(
            if t.len() > 0 && (t[0] == '+' || t[0] == '-') {
                t.skip(1)
            } else {
                t
            },
        )
    })
}

/// Digits with an optional point among, before or behind them, and an optional exponent.
pub open spec fn is_decimal(s: Seq<char>) -> bool {
    let whole = leading_digits(s);
    let rest = s.skip(whole as int);
    if rest.len() > 0 && rest[0] == '.' {
        let part = rest.skip(1);
        let places = leading_digits(part);
        whole + places > 0 && is_exponent(part.skip(places as int))
    } else {
        whole > 0 && is_exponent(rest)
    }
}

/// A word for infinity or for no number, in any case.
pub open spec fn is_special(s: Seq<char>) -> bool {
    same_ignoring_case(s, "inf"@) || same_ignoring_case(s, "infinity"@) || same_ignoring_case(
        s,
        "nan"@,
    )
}

/// A text that spells a floating-point number.
pub open spec fn is_float(s: Seq<char>) -> bool {
    let t = if s.len() > 0 && (s[0] == '+' || s[0] == '-') { s.skip(1) } else { s };
    is_special(t) || is_decimal(t)
}

/// The number of digits from a position on.
fn count_digits(s: &Vec<char>, start: usize) -> (n: usize)
    requires
        start <= s@.len(),
    ensures
        n == leading_digits(s@.skip(start as int)),
        start + n <= s@.len(),
{
    let mut i: usize = start;
    while i < s.len() && '0' <= s[i] && s[i] <= '9'
        invariant
            start <= i <= s@.len(),
            leading_digits(s@.skip(start as int)) == (i - start) + leading_digits(
                s@.skip(i as int),
            ),
        decreases s@.len() - i,
    {
        assert(s@.skip(i as int)[0] == s@[i as int]);
        assert(s@.skip(i as int).skip(1) =~= s@.skip(i + 1));
        i = i + 1;
    }
    assert(i < s@.len() ==> s@.skip(i as int)[0] == s@[i as int]);
    i - start
}

/// There are digits and nothing else exactly where the leading digits are all there is.
proof fn lemma_all_digits(s: Seq<char>)
    ensures
        all_digits(s) <==> s.len() > 0 && leading_digits(s) == s.len(),
        leading_digits(s) <= s.len(),
    decreases s.len(),
{
    if s.len() > 0 && is_digit(s[0]) {
        let t = s.skip(1);
        lemma_all_digits(t);
        assert(forall|i: int| 0 <= i < t.len() ==> t[i] == s[i + 1]);
        if leading_digits(s) == s.len() {
            assert forall|i: int| 0 <= i < s.len() implies is_digit(#[trigger] s[i]) by {
                if i > 0 {
                    assert(t[i - 1] == s[i]);
                }
            }
        }
    }
}

/// Whether an exponent, or nothing, stands from a position on.
fn exponent_at(s: &Vec<char>, start: usize) -> (r: bool)
    requires
        start <= s@.len(),
    ensures
        r == is_exponent(s@.skip(start as int)),
{
    let ghost t = s@.skip(start as int);
    if start == s.len() {
        return true;
    }
    assert(t[0] == s@[start as int]);
    if s[start] != 'e' && s[start] != 'E' {
        return false;
    }
    let mut from: usize = start + 1;
    assert(t.skip(1) =~= s@.skip(from as int));
    if from < s.len() && (s[from] == '+' || s[from] == '-') {
        assert(s@.skip(from as int).skip(1) =~= s@.skip(from + 1));
        from = from + 1;
    }
    proof {
        lemma_all_digits(s@.skip(from as int));
    }
    from < s.len() && count_digits(s, from) == s.len() - from
}

/// Whether a decimal number stands from a position on.
fn decimal_at(s: &Vec<char>, start: usize) -> (r: bool)
    requires
        start <= s@.len(),
    ensures
        r == is_decimal(s@.skip(start as int)),
{
    let length: usize = s.len();
    let whole: usize = count_digits(s, start);
    let next: usize = start + whole;
    assert(s@.skip(start as int).skip(whole as int) =~= s@.skip(next as int));
    assert(next < s@.len() ==> s@.skip(next as int)[0] == s@[next as int]);
    if next < length && s[next] == '.' {
        assert(s@.skip(next as int).skip(1) =~= s@.skip(next + 1));
        let places: usize = count_digits(s, next + 1);
        assert(s@.skip(next + 1).skip(places as int) =~= s@.skip(next + 1 + places));
        (whole > 0 || places > 0) && exponent_at(s, next + 1 + places)
    } else {
        whole > 0 && exponent_at(s, next)
    }
}

/// Whether a text spells a floating-point number.
pub fn spells_float(text: &str) -> (r: bool)
    ensures
        r == is_float(text@),
{
    let chars: Vec<char> = chars_of(text);
    let start: usize = if chars.len() > 0 && (chars[0] == '+' || chars[0] == '-') {
        1
    } else {
        0
    };
    assert(chars@.skip(0) =~= chars@);
    let word: &str = text.substring_char(start, chars.len());
    assert(word@ =~= chars@.skip(start as int));
    eq_ignore_case(word, "inf") || eq_ignore_case(word, "infinity") || eq_ignore_case(word, "nan")
        || decimal_at(&chars, start)
}

/// The number that a hexadecimal digit stands for.
pub open spec fn hex_value(c: char) -> int {
    if is_digit(c) {
        c as int - '0' as int
    } else {
        c as int - 'a' as int + 10
    }
}

/// The number that hexadecimal digits spell.
pub open spec fn hex_number(s: Seq<char>) -> int
    decreases s.len(),
{
    if s.len() == 0 {
        0
    } else {
        hex_number(s.drop_last()) * 16 + hex_value(s.last())
    }
}

/// A number in hexadecimal spells that number, and starts with no zero but its own.
pub proof fn law_hex_spells_number(n: nat)
    ensures
        hex_number(hex(n)) == n,
        n > 0 ==> hex(n)[0] != '0',
        hex(n).len() > 0,
    decreases n,
{
    let s = hex(n);
    if n < 16 {
        assert(s.drop_last() =~= Seq::empty());
        assert(hex_number(s.drop_last()) == 0);
        assert(hex_value(s.last()) == n);
    } else {
        law_hex_spells_number(n / 16);
        assert(s.drop_last() =~= hex(n / 16));
        assert(hex_value(s.last()) == n % 16);
    }
}

/// Digits in front of something else are counted.
proof fn lemma_leading(s: Seq<char>, rest: Seq<char>)
    requires
        forall|i: int| 0 <= i < s.len() ==> is_digit(#[trigger] s[i]),
        rest.len() > 0 ==> !is_digit(rest[0]),
    ensures
        leading_digits(s + rest) == s.len(),
        (s + rest).skip(s.len() as int) == rest,
    decreases s.len(),
{
    assert((s + rest).skip(s.len() as int) =~= rest);
    if s.len() == 0 {
        assert(s + rest =~= rest);
    } else {
        let more = s.skip(1);
        assert((s + rest)[0] == s[0]);
        assert((s + rest).skip(1) =~= more + rest);
        assert(forall|i: int| 0 <= i < more.len() ==> more[i] == s[i + 1]);
        lemma_leading(more, rest);
    }
}

/// Digits, a point, digits and an exponent spell a number, with or without a
/// sign, and so do the parts that are left where the point, the digits on one
/// of its sides or the exponent are left out.
pub proof fn law_float_forms(whole: Seq<char>, places: Seq<char>, exponent: Seq<char>)
    requires
        all_digits(whole),
        all_digits(places),
        all_digits(exponent),
    ensures
        is_float(whole),
        is_float(whole + (seq!['.'] + places)),
        is_float(whole + seq!['.']),
        is_float(seq!['.'] + places),
        is_float(seq!['-'] + (whole + (seq!['.'] + places))),
        is_float(whole + (seq!['e'] + exponent)),
        !is_float(seq!['.']),
        !is_float(seq!['e'] + exponent),
{
    let none = Seq::<char>::empty();
    reveal_strlit("inf");
    reveal_strlit("infinity");
    reveal_strlit("nan");
    lemma_leading(whole, none);
    assert(whole + none =~= whole);
    assert(is_digit(whole[0]));
    lemma_leading(whole, seq!['.'] + places);
    assert((seq!['.'] + places).skip(1) =~= places);
    lemma_leading(places, none);
    assert(places + none =~= places);
    assert(is_digit(places[0]));
    lemma_leading(whole, seq!['.']);
    assert(seq!['.'].skip(1) =~= none);
    lemma_leading(none, seq!['.'] + places);
    assert(none + (seq!['.'] + places) =~= seq!['.'] + places);
    let e = seq!['e'] + exponent;
    lemma_leading(whole, e);
    assert(e.skip(1) =~= exponent);
    assert(is_digit(exponent[0]));
    assert(is_exponent(e));
    let full = whole + (seq!['.'] + places);
    assert((seq!['-'] + full).skip(1) =~= full);
    assert(full[0] == whole[0]);
    assert((seq!['.'] + places)[0] == '.');
    assert((whole + seq!['.'])[0] == whole[0]);
    assert((whole + e)[0] == whole[0]);
    lemma_leading(none, seq!['.']);
    assert(none + seq!['.'] =~= seq!['.']);
    lemma_leading(none, e);
    assert(none + e =~= e);
    assert(e[0] == 'e');
    assert(is_decimal(whole));
    assert(is_decimal(full));
    assert(is_decimal(whole + seq!['.']));
    assert(is_decimal(seq!['.'] + places));
    assert(is_decimal(whole + e));
    assert(ascii_lower(e[0]) == 'e');
    assert(ascii_lower("inf"@[0]) == 'i' && ascii_lower("infinity"@[0]) == 'i' && ascii_lower(
        "nan"@[0],
    ) == 'n');
    assert(!is_special(e));
    assert(ascii_lower(seq!['.'][0]) == '.');
}

} // verus!
