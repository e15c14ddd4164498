//! Why a value, a frame body or a request could not be encoded or decoded.

use crate::value::NativeType;
use vstd::prelude::*;

verus! {

/// What a reader was reading when the bytes ran out.
#[derive(Debug, Clone, Copy, PartialEq, Eq, Structural)]
pub enum Part {
    U8,
    U16,
    U32,
    I32,
    I64,
    Short,
    Int,
    Long,
    StringBody,
    BytesBody,
    ColumnValue,
    Vint,
    ListElement,
    MapKey,
    MapValue,
    SetElement,
    TupleElement,
    UdtFieldName,
    UdtFieldValue,
    Bool,
    AttributeType,
    Bytes(usize, usize),
}

/// What was too long, or held too many items, for its length field.
#[derive(Debug, Clone, Copy, PartialEq, Eq, Structural)]
pub enum Limit {
    Text,
    Ascii,
    Blob,
    String,
    FieldName,
    VectorDimension,
    Vector,
    PackedVectorList,
    ListElements,
    List,
    SetElements,
    SetData,
    MapEntries,
    MapData,
    TupleElements,
    Tuple,
    UdtFields,
    Udt,
    Values,
    Statements,
    Length,
    Elements,
}

/// Where a vector came.
#[derive(Debug, Clone, Copy, PartialEq, Eq, Structural)]
pub enum VectorKind {
    /// In a list.
    Element,
    /// On its own.
    Value,
    /// In a packed list: the number of vectors, and their dimension.
    Packed(usize, u16),
}

/// How a wide integer came.
#[derive(Debug, Clone, Copy, PartialEq, Eq, Structural)]
pub enum Wide {
    /// As a value of 64 bits.
    BigIntValue,
    /// As an item of 64 bits.
    BigInt,
    /// As an item of 32 bits.
    Int,
}

/// Why bytes could not be encoded or decoded.
#[derive(Debug, Clone, Copy, PartialEq, Eq, Structural)]
pub enum CodecError {
    /// The bytes ended too early.
    UnexpectedEof(Part),
    /// A length or count does not fit the field that holds it.
    TooLong(Limit),
    /// A value of a fixed-size type came with this many bytes.
    InvalidLength(u16, usize),
    /// An integer came with this many bytes.
    IntegerLength(usize),
    /// The bytes of a vector are no multiple of four.
    VectorDataLength(usize),
    /// A vector came with another number of bytes than its dimension asks for: expected, got.
    VectorSizeMismatch(VectorKind, u64, usize),
    /// A vector of another element type than float, by its code.
    VectorSubtype(u16),
    /// A vector of another dimension than its column: expected, got.
    VectorDimension(usize, usize),
    /// A vector element is no float.
    VectorElement,
    /// A list that starts with a vector holds something else too.
    NonVectorElement,
    /// The value's type has no encoding.
    Unsupported,
    /// The column's type has no code.
    UnsupportedColumnType,
    /// A variable-length integer is longer than 64 bits.
    VintOverflow,
    /// The bytes of a string are no UTF-8.
    InvalidUtf8,
    /// The bytes of a value that is written as text are no UTF-8.
    InvalidText(NativeType),
    /// A boolean came with no byte.
    EmptyBoolean,
    /// A map key is null.
    NullMapKey,
    /// An integer does not fit the column's type.
    OutOfRange(Wide, i64, NativeType),
    /// A text is no number of the column's type.
    InvalidDecimal,
    /// A text is no date.
    InvalidDate,
    /// A text is no time of day.
    InvalidTime,
    /// A text is no internet address.
    InvalidInet,
    /// A text is no UUID.
    InvalidUuid,
    /// A number in a duration cannot be read.
    DurationNumber,
    /// A duration is out of range.
    DurationRange,
    /// A unit in a duration is unknown.
    DurationUnit(char),
    /// A collection announces a negative number of items.
    NegativeCount(i32),
    /// A write request of an unknown type.
    UnknownWriteRequest(u8),
    /// A result of an unknown kind.
    UnknownResultKind(i32),
}

/// What an encoder appends, or why it refuses.
pub type Coded = Result<Seq<u8>, CodecError>;

/// `rest`, with `done` in front of its items.
pub open spec fn after<T>(done: Seq<T>, rest: Result<Seq<T>, CodecError>) -> Result<
    Seq<T>,
    CodecError,
> {
    match rest {
        Ok(items) => Ok(done + items),
        Err(e) => Err(e),
    }
}

/// Items in front of items in front of the rest are the joined items in front of the rest.
pub proof fn lemma_after<T>(done: Seq<T>, more: Seq<T>, rest: Result<Seq<T>, CodecError>)
    ensures
        after(done, after(more, rest)) == after(done + more, rest),
        after(done, Ok(Seq::empty())) == Ok::<Seq<T>, CodecError>(done),
        after(Seq::empty(), rest) == rest,
{
    if let Ok(items) = rest {
        assert(done + (more + items) =~= (done + more) + items);
        assert(Seq::empty() + items =~= items);
    }
    assert(done + Seq::empty() =~= done);
}

/// An encoder that met `result` turned the buffer's bytes `before` into `now`:
/// it appended what `coded` says, or it refused as `coded` says. A refusal may
/// leave part of the encoding behind the old bytes.
pub open spec fn wrote(
    coded: Coded,
    result: Result<(), CodecError>,
    before: Seq<u8>,
    now: Seq<u8>,
) -> bool {
    match coded {
        Ok(bytes) => result == Ok::<(), CodecError>(()) && now == before + bytes,
        Err(e) => result == Err::<(), CodecError>(e) && before.is_prefix_of(now),
    }
}

} // verus!
