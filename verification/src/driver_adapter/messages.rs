//! What the adapter says of what went wrong.

use crate::error::{CodecError, Limit, Part, VectorKind, Wide};
use crate::number::{
    all_digits, decimal, decimal_text, digits_value, hex, hex_text, law_decimal_spells_number,
    signed_decimal, signed_decimal_text,
};
use crate::text::{both, char_text, joined};
use crate::value::NativeType;
use vstd::prelude::*;
use vstd::string::*;

verus! {

/// What was read when the bytes ended.
pub open spec fn part_text(part: Part) -> Seq<char> {
    match part {
        Part::U8 => "u8"@,
        Part::U16 => "u16"@,
        Part::I32 => "i32"@,
        Part::I64 => "i64"@,
        Part::Short => "short"@,
        Part::Int => "int"@,
        Part::Long => "long"@,
        Part::StringBody => "string body"@,
        Part::ListElement => "list element"@,
        Part::SetElement => "set element"@,
        Part::MapKey => "map key"@,
        Part::MapValue => "map value"@,
        Part::TupleElement => "tuple element"@,
        Part::UdtFieldName => "UDT field name"@,
        Part::UdtFieldValue => "UDT field value"@,
        _ => "data"@,
    }
}

/// What was read when the bytes ended.
fn part_name(part: Part) -> (r: &'static str)
    ensures
        r@ == part_text(part),
{
    match part {
        Part::U8 => "u8",
        Part::U16 => "u16",
        Part::I32 => "i32",
        Part::I64 => "i64",
        Part::Short => "short",
        Part::Int => "int",
        Part::Long => "long",
        Part::StringBody => "string body",
        Part::ListElement => "list element",
        Part::SetElement => "set element",
        Part::MapKey => "map key",
        Part::MapValue => "map value",
        Part::TupleElement => "tuple element",
        Part::UdtFieldName => "UDT field name",
        Part::UdtFieldValue => "UDT field value",
        _ => "data",
    }
}

/// The word for a column type in what is said of its values.
pub open spec fn type_word(native: NativeType) -> Seq<char> {
    match native {
        NativeType::Decimal => "decimal"@,
        NativeType::Date => "date"@,
        NativeType::Time => "time"@,
        NativeType::Duration => "duration"@,
        NativeType::Inet => "inet"@,
        NativeType::Timeuuid => "timeuuid"@,
        NativeType::Int => "Int"@,
        NativeType::SmallInt => "SmallInt"@,
        NativeType::TinyInt => "TinyInt"@,
        _ => "value"@,
    }
}

/// The word for a column type in what is said of its values.
fn column_name(native: NativeType) -> (r: &'static str)
    ensures
        r@ == type_word(native),
{
    match native {
        NativeType::Decimal => "decimal",
        NativeType::Date => "date",
        NativeType::Time => "time",
        NativeType::Duration => "duration",
        NativeType::Inet => "inet",
        NativeType::Timeuuid => "timeuuid",
        NativeType::Int => "Int",
        NativeType::SmallInt => "SmallInt",
        NativeType::TinyInt => "TinyInt",
        _ => "value",
    }
}

/// The word for a type code whose values have a fixed length.
pub open spec fn code_word(type_code: u16) -> Seq<char> {
    if type_code == 0x0007 {
        "double"@
    } else if type_code == 0x0008 {
        "float"@
    } else if type_code == 0x000C {
        "uuid"@
    } else if type_code == 0x000F {
        "timeuuid"@
    } else if type_code == 0x0010 {
        "inet"@
    } else if type_code == 0x0011 {
        "date"@
    } else if type_code == 0x0012 {
        "time"@
    } else {
        "value"@
    }
}

/// The word for a type code whose values have a fixed length.
fn code_name(type_code: u16) -> (r: &'static str)
    ensures
        r@ == code_word(type_code),
{
    match type_code {
        0x0007 => "double",
        0x0008 => "float",
        0x000C => "uuid",
        0x000F => "timeuuid",
        0x0010 => "inet",
        0x0011 => "date",
        0x0012 => "time",
        _ => "value",
    }
}

/// The word for how an integer came.
pub open spec fn wide_word(wide: Wide) -> Seq<char> {
    match wide {
        Wide::BigIntValue => "BigInt value "@,
        Wide::BigInt => "BigInt "@,
        Wide::Int => "Int "@,
    }
}

/// The word for how an integer came.
fn wide_name(wide: Wide) -> (r: &'static str)
    ensures
        r@ == wide_word(wide),
{
    match wide {
        Wide::BigIntValue => "BigInt value ",
        Wide::BigInt => "BigInt ",
        Wide::Int => "Int ",
    }
}

/// What is said of something that is too long or holds too many items.
pub open spec fn limit_text(limit: Limit) -> Seq<char> {
    match limit {
        Limit::ListElements => "too many list elements"@,
        Limit::SetElements => "too many set elements"@,
        Limit::MapEntries => "too many map entries"@,
        Limit::Elements => "too many elements"@,
        Limit::String =>
            "string too long for short length: out of range integral type conversion attempted"@,
        _ => "length does not fit in i32: out of range integral type conversion attempted"@,
    }
}

/// What is said of something that is too long or holds too many items.
fn limit_message(limit: Limit) -> (r: &'static str)
    ensures
        r@ == limit_text(limit),
{
    match limit {
        Limit::ListElements => "too many list elements",
        Limit::SetElements => "too many set elements",
        Limit::MapEntries => "too many map entries",
        Limit::Elements => "too many elements",
        Limit::String =>
            "string too long for short length: out of range integral type conversion attempted",
        _ => "length does not fit in i32: out of range integral type conversion attempted",
    }
}

/// Two numbers: what was expected, and what came.
pub open spec fn mismatch_text(expected: nat, got: nat) -> Seq<char> {
    decimal(expected) + (", got "@ + decimal(got))
}

/// Two numbers: what was expected, and what came.
fn mismatch(expected: u64, got: usize) -> (r: String)
    ensures
        r@ == mismatch_text(expected as nat, got as nat),
{
    let tail: String = both(", got ", decimal_text(got as u64).as_str());
    both(decimal_text(expected).as_str(), tail.as_str())
}

/// What is said of a vector with a wrong number of bytes.
pub open spec fn vector_text(kind: VectorKind, expected: u64, got: usize) -> Seq<char> {
    match kind {
        VectorKind::Element => "vector element size mismatch: expected "@ + mismatch_text(
            expected as nat,
            got as nat,
        ),
        VectorKind::Value => "vector data size mismatch: expected "@ + mismatch_text(
            expected as nat,
            got as nat,
        ),
        VectorKind::Packed(n, dimension) => "packed vector list data size mismatch: expected "@
            + decimal(expected as nat) + (" ("@ + decimal(n as nat) + ("*"@ + decimal(
            dimension as nat,
        ) + ("*4), got "@ + decimal(got as nat)))),
    }
}

/// What is said of a vector with a wrong number of bytes.
fn vector_message(kind: VectorKind, expected: u64, got: usize) -> (r: String)
    ensures
        r@ == vector_text(kind, expected, got),
{
    match kind {
        VectorKind::Element => both(
            "vector element size mismatch: expected ",
            mismatch(expected, got).as_str(),
        ),
        VectorKind::Value => both(
            "vector data size mismatch: expected ",
            mismatch(expected, got).as_str(),
        ),
        VectorKind::Packed(n, dimension) => {
            let a: String = both("*4), got ", decimal_text(got as u64).as_str());
            let b: String = joined("*", decimal_text(dimension as u64).as_str(), a.as_str());
            let c: String = joined(" (", decimal_text(n as u64).as_str(), b.as_str());
            joined(
                "packed vector list data size mismatch: expected ",
                decimal_text(expected).as_str(),
                c.as_str(),
            )
        },
    }
}

/// What the adapter says of bytes or values that it cannot read or convert. Of
/// a text that spells no value of its column it does not say why.
pub open spec fn codec_text(e: CodecError) -> Seq<char> {
    match e {
        CodecError::UnexpectedEof(Part::Bytes(need, have)) => "unexpected EOF: need "@ + decimal(
            need as nat,
        ) + (" bytes, have "@ + decimal(have as nat)),
        CodecError::UnexpectedEof(part) => "unexpected EOF reading "@ + part_text(part),
        CodecError::TooLong(limit) => limit_text(limit),
        CodecError::InvalidLength(type_code, n) => "invalid "@ + code_word(type_code)
            + (" length: "@ + decimal(n as nat)),
        CodecError::IntegerLength(n) => "invalid integer value length: "@ + decimal(n as nat),
        CodecError::VectorSizeMismatch(kind, expected, got) => vector_text(kind, expected, got),
        CodecError::VectorSubtype(code) =>
            "only vector<float> is currently supported, got subtype 0x"@ + hex(code as nat),
        CodecError::VectorDimension(expected, got) => "vector dimension mismatch: expected "@
            + mismatch_text(expected as nat, got as nat),
        CodecError::VectorElement => "vector element must be Float"@,
        CodecError::EmptyBoolean => "empty boolean value"@,
        CodecError::NullMapKey => "null key in map"@,
        CodecError::OutOfRange(wide, n, native) => wide_word(wide) + signed_decimal(n as int) + (
        " exceeds "@ + type_word(native) + " range"@),
        CodecError::InvalidText(NativeType::Ascii) => "invalid ASCII string"@,
        CodecError::InvalidText(NativeType::Text) => "invalid UTF-8 string"@,
        CodecError::InvalidText(native) => "invalid UTF-8 in "@ + type_word(native) + " string"@,
        CodecError::InvalidDecimal => "invalid decimal string"@,
        CodecError::InvalidDate => "invalid date string"@,
        CodecError::InvalidTime => "invalid time string"@,
        CodecError::InvalidInet => "invalid inet string"@,
        CodecError::InvalidUuid => "invalid timeuuid string"@,
        CodecError::DurationNumber => "invalid duration number"@,
        CodecError::DurationUnit(c) => "invalid duration unit: "@ + seq![c],
        CodecError::UnsupportedColumnType => "unsupported column type in result"@,
        CodecError::Unsupported => "unsupported value for column type"@,
        _ => "invalid data"@,
    }
}

/// What the adapter says of bytes or values that it cannot read or convert.
pub fn codec_message(e: CodecError) -> (text: String)
    ensures
        text@ == codec_text(e),
{
    match e {
        CodecError::UnexpectedEof(Part::Bytes(need, have)) => {
            let tail: String = both(" bytes, have ", decimal_text(have as u64).as_str());
            joined("unexpected EOF: need ", decimal_text(need as u64).as_str(), tail.as_str())
        },
        CodecError::UnexpectedEof(part) => both("unexpected EOF reading ", part_name(part)),
        CodecError::TooLong(limit) => limit_message(limit).to_owned(),
        CodecError::InvalidLength(type_code, n) => {
            let tail: String = both(" length: ", decimal_text(n as u64).as_str());
            joined("invalid ", code_name(type_code), tail.as_str())
        },
        CodecError::IntegerLength(n) => both(
            "invalid integer value length: ",
            decimal_text(n as u64).as_str(),
        ),
        CodecError::VectorSizeMismatch(kind, expected, got) => vector_message(
            kind,
            expected,
            got,
        ),
        CodecError::VectorSubtype(code) => both(
            "only vector<float> is currently supported, got subtype 0x",
            hex_text(code as u64).as_str(),
        ),
        CodecError::VectorDimension(expected, got) => both(
            "vector dimension mismatch: expected ",
            mismatch(expected as u64, got).as_str(),
        ),
        CodecError::VectorElement => "vector element must be Float".to_owned(),
        CodecError::EmptyBoolean => "empty boolean value".to_owned(),
        CodecError::NullMapKey => "null key in map".to_owned(),
        CodecError::OutOfRange(wide, n, native) => {
            let tail: String = joined(" exceeds ", column_name(native), " range");
            joined(wide_name(wide), signed_decimal_text(n).as_str(), tail.as_str())
        },
        CodecError::InvalidText(NativeType::Ascii) => "invalid ASCII string".to_owned(),
        CodecError::InvalidText(NativeType::Text) => "invalid UTF-8 string".to_owned(),
        CodecError::InvalidText(native) => joined(
            "invalid UTF-8 in ",
            column_name(native),
            " string",
        ),
        CodecError::InvalidDecimal => "invalid decimal string".to_owned(),
        CodecError::InvalidDate => "invalid date string".to_owned(),
        CodecError::InvalidTime => "invalid time string".to_owned(),
        CodecError::InvalidInet => "invalid inet string".to_owned(),
        CodecError::InvalidUuid => "invalid timeuuid string".to_owned(),
        CodecError::DurationNumber => "invalid duration number".to_owned(),
        CodecError::DurationUnit(c) => both("invalid duration unit: ", char_text(c).as_str()),
        CodecError::UnsupportedColumnType => "unsupported column type in result".to_owned(),
        CodecError::Unsupported => "unsupported value for column type".to_owned(),
        _ => "invalid data".to_owned(),
    }
}

/// A text is a number in digits between two others.
pub open spec fn tells(text: Seq<char>, front: Seq<char>, n: nat, back: Seq<char>) -> bool {
    exists|digits: Seq<char>|
        all_digits(digits) && digits_value(digits) == n && text == #[trigger] (front + digits
            + back)
}

/// A text is two numbers in digits, the first behind one text and the second
/// behind another.
pub open spec fn tells_both(
    text: Seq<char>,
    front: Seq<char>,
    n: nat,
    middle: Seq<char>,
    m: nat,
) -> bool {
    exists|a: Seq<char>, b: Seq<char>|
        all_digits(a) && digits_value(a) == n && all_digits(b) && digits_value(b) == m && text
            == #[trigger] (front + a + (middle + b))
}

/// Numbers that were written are told.
proof fn lemma_told(front: Seq<char>, n: nat, middle: Seq<char>, m: nat)
    ensures
        tells_both(front + decimal(n) + (middle + decimal(m)), front, n, middle, m),
        tells(front + decimal(n), front, n, Seq::empty()),
        tells(front + decimal(n) + middle, front, n, middle),
{
    law_decimal_spells_number(n);
    law_decimal_spells_number(m);
    assert(front + decimal(n) =~= front + decimal(n) + Seq::<char>::empty());
}

/// A message tells the numbers of its error, each in its place.
pub proof fn law_messages_tell_their_numbers(first: usize, second: usize)
    ensures
        tells_both(
            codec_text(CodecError::UnexpectedEof(Part::Bytes(first, second))),
            "unexpected EOF: need "@,
            first as nat,
            " bytes, have "@,
            second as nat,
        ),
        tells_both(
            codec_text(CodecError::VectorDimension(first, second)),
            "vector dimension mismatch: expected "@,
            first as nat,
            ", got "@,
            second as nat,
        ),
        tells_both(
            codec_text(
                CodecError::VectorSizeMismatch(VectorKind::Element, first as u64, second),
            ),
            "vector element size mismatch: expected "@,
            first as nat,
            ", got "@,
            second as nat,
        ),
        tells_both(
            codec_text(CodecError::VectorSizeMismatch(VectorKind::Value, first as u64, second)),
            "vector data size mismatch: expected "@,
            first as nat,
            ", got "@,
            second as nat,
        ),
        tells(
            codec_text(CodecError::IntegerLength(first)),
            "invalid integer value length: "@,
            first as nat,
            Seq::empty(),
        ),
{
    let (n, m) = (first as nat, second as nat);
    let got = ", got "@;
    let dimension = "vector dimension mismatch: expected "@;
    let element = "vector element size mismatch: expected "@;
    let value = "vector data size mismatch: expected "@;
    lemma_told("unexpected EOF: need "@, n, " bytes, have "@, m);
    lemma_told(dimension, n, got, m);
    lemma_told(element, n, got, m);
    lemma_told(value, n, got, m);
    lemma_told("invalid integer value length: "@, n, got, m);
    assert(dimension + mismatch_text(n, m) =~= dimension + decimal(n) + (got + decimal(m)));
    assert(element + mismatch_text(n, m) =~= element + decimal(n) + (got + decimal(m)));
    assert(value + mismatch_text(n, m) =~= value + decimal(n) + (got + decimal(m)));
}

} // verus!
