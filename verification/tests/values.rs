//! Values on the wire: what the client writes, the adapter reads and answers,
//! and the client reads again.

use bytes::BytesMut;
use latte_ipc::driver_adapter::convert::{
    clock_to_nanos, coerce_value, convert_value, date_value, day_to_date, decimal_value, time_value,
};
use latte_ipc::driver_adapter::decode::{decode_typed_value_by_code, read_int_flexible};
use latte_ipc::driver_adapter::duration::parse_duration_string;
use latte_ipc::driver_adapter::encode::{encode_value as encode_column, type_code};
use latte_ipc::driver_adapter::messages::codec_message;
use latte_ipc::error::{CodecError, Limit, Part, VectorKind, Wide};
use latte_ipc::ipc::decode::{
    decode_column_value, decode_column_value_from_bytes, decode_rows_result,
};
use latte_ipc::ipc::encode::encode_value;
use latte_ipc::ipc::types::QueryResult;
use latte_ipc::number::{
    decimal_text, hex_text, parse_i64, parse_u64, signed_decimal_text, spells_float,
};
use latte_ipc::value::{
    narrow, ColumnType, Consistency, CqlDuration, CqlValue, IpAddr, NativeType,
};
use latte_ipc::vint::{decode_vint, encode_vint};

fn show(v: &CqlValue) -> String {
    format!("{:?}", v)
}

fn sent(v: &CqlValue) -> Vec<u8> {
    let mut buf = BytesMut::new();
    encode_value(v, &mut buf).expect("the value has an encoding");
    buf.to_vec()
}

/// What the adapter reads of a value that was sent.
fn received(v: &CqlValue) -> CqlValue {
    let bytes = sent(v);
    let code = u16::from_be_bytes([bytes[0], bytes[1]]);
    let length = i32::from_be_bytes([bytes[2], bytes[3], bytes[4], bytes[5]]);
    assert_eq!(length as usize, bytes.len() - 6);
    decode_typed_value_by_code(&bytes[6..], code).expect("what was sent can be read")
}

fn native(t: NativeType) -> ColumnType {
    ColumnType::Native(t)
}

#[test]
fn scalars_have_these_bytes() {
    assert_eq!(sent(&CqlValue::TinyInt(-2)), [0, 0x14, 0, 0, 0, 1, 0xFE]);
    assert_eq!(sent(&CqlValue::SmallInt(-2)), [0, 0x13, 0, 0, 0, 2, 0xFF, 0xFE]);
    assert_eq!(sent(&CqlValue::Int(1)), [0, 0x09, 0, 0, 0, 4, 0, 0, 0, 1]);
    assert_eq!(
        sent(&CqlValue::BigInt(-1)),
        [0, 0x02, 0, 0, 0, 8, 255, 255, 255, 255, 255, 255, 255, 255]
    );
    assert_eq!(sent(&CqlValue::Text("é".to_string())), [0, 0x0D, 0, 0, 0, 2, 0xC3, 0xA9]);
    assert_eq!(sent(&CqlValue::Boolean(true)), [0, 0x04, 0, 0, 0, 1, 1]);
    assert_eq!(
        sent(&CqlValue::Float(1.5f32.to_bits())),
        [0, 0x08, 0, 0, 0, 4, 0x3F, 0xC0, 0, 0]
    );
    assert_eq!(sent(&CqlValue::Empty), [0, 0x03, 0xFF, 0xFF, 0xFF, 0xFF]);
    assert_eq!(
        sent(&CqlValue::Inet(IpAddr::V4([127, 0, 0, 1]))),
        [0, 0x10, 0, 0, 0, 4, 127, 0, 0, 1]
    );
}

#[test]
fn scalars_come_back() {
    let values = [
        CqlValue::TinyInt(-128),
        CqlValue::SmallInt(i16::MIN),
        CqlValue::Int(i32::MAX),
        CqlValue::BigInt(i64::MIN),
        CqlValue::Text("naïve".to_string()),
        CqlValue::Ascii("plain".to_string()),
        CqlValue::Boolean(false),
        CqlValue::Float(0.1f32.to_bits()),
        CqlValue::Double(0.1f64.to_bits()),
        CqlValue::Uuid([7; 16]),
        CqlValue::Timeuuid([9; 16]),
        CqlValue::Blob(vec![0, 1, 255]),
        CqlValue::Timestamp(-5),
        CqlValue::Date(1 << 31),
        CqlValue::Time(1),
        CqlValue::Inet(IpAddr::V6([1; 16])),
        CqlValue::Counter(3),
    ];
    for v in &values {
        assert_eq!(show(&received(v)), show(v));
    }
}

#[test]
fn collections_come_back() {
    let list = CqlValue::List(vec![CqlValue::Int(1), CqlValue::Int(2)]);
    assert_eq!(
        sent(&list)[..12],
        [0, 0x20, 0, 0, 0, 22, 0, 0x09, 0, 0, 0, 2]
    );
    assert_eq!(show(&received(&list)), show(&list));
    let set = CqlValue::SetOf(vec![CqlValue::Text("a".to_string())]);
    assert_eq!(show(&received(&set)), show(&set));
    let map = CqlValue::MapOf(vec![(CqlValue::Text("k".to_string()), CqlValue::BigInt(4))]);
    assert_eq!(show(&received(&map)), show(&map));
    let tuple = CqlValue::Tuple(vec![Some(CqlValue::Int(1)), None]);
    assert_eq!(show(&received(&tuple)), show(&tuple));
    let fields = vec![("f".to_string(), Some(CqlValue::Int(1)))];
    let udt = CqlValue::UserDefinedType {
        keyspace: String::new(),
        name: "udt".to_string(),
        fields,
    };
    assert_eq!(show(&received(&udt)), show(&udt));
}

#[test]
fn vectors_are_sent_as_floats() {
    let vector = CqlValue::Vector(vec![
        CqlValue::Float(1.0f32.to_bits()),
        CqlValue::Double(2.5f64.to_bits()),
    ]);
    assert_eq!(
        sent(&vector),
        [0, 0x30, 0, 0, 0, 12, 0, 8, 0, 2, 0x3F, 0x80, 0, 0, 0x40, 0x20, 0, 0]
    );
    let packed = CqlValue::List(vec![
        CqlValue::Vector(vec![CqlValue::Float(1.0f32.to_bits())]),
        CqlValue::Vector(vec![CqlValue::Float(2.0f32.to_bits())]),
    ]);
    assert_eq!(
        sent(&packed),
        [0, 0x32, 0, 0, 0, 14, 0, 0, 0, 2, 0, 1, 0x3F, 0x80, 0, 0, 0x40, 0, 0, 0]
    );
    assert_eq!(show(&received(&packed)), show(&packed));
}

#[test]
fn narrowing_rounds_as_a_cast_does() {
    for x in [0.1f64, -2.5, 1e300, 1e-300, f64::INFINITY, 16777217.0] {
        assert_eq!(narrow(x.to_bits()), (x as f32).to_bits());
    }
}

#[test]
fn values_without_an_encoding_are_refused() {
    let mut buf = BytesMut::new();
    let duration = CqlDuration { months: 1, days: 2, nanoseconds: 3 };
    assert_eq!(
        encode_value(&CqlValue::Duration(duration), &mut buf),
        Err(CodecError::Unsupported)
    );
    assert_eq!(encode_value(&CqlValue::Varint(vec![1]), &mut buf), Err(CodecError::Unsupported));
    assert_eq!(
        encode_value(&CqlValue::Vector(vec![CqlValue::Int(1)]), &mut buf),
        Err(CodecError::VectorElement)
    );
    let mixed = CqlValue::List(vec![CqlValue::Vector(vec![]), CqlValue::Int(1)]);
    assert_eq!(encode_value(&mixed, &mut buf), Err(CodecError::NonVectorElement));
    let wide = CqlValue::Vector((0..70_000).map(|_| CqlValue::Float(0)).collect());
    assert_eq!(
        encode_value(&wide, &mut buf),
        Err(CodecError::TooLong(Limit::VectorDimension))
    );
}

#[test]
fn columns_come_back_to_the_client() {
    let columns = [
        (native(NativeType::Int), CqlValue::Int(-7)),
        (native(NativeType::Text), CqlValue::Text("x".to_string())),
        (native(NativeType::Boolean), CqlValue::Boolean(true)),
        (native(NativeType::Double), CqlValue::Double(0.5f64.to_bits())),
        (native(NativeType::Inet), CqlValue::Inet(IpAddr::V4([10, 0, 0, 1]))),
        (
            native(NativeType::Decimal),
            CqlValue::Decimal { mantissa: vec![0x01, 0x00], scale: 2 },
        ),
        (native(NativeType::Varint), CqlValue::Varint(vec![0xFF])),
    ];
    for (typ, v) in &columns {
        let mut buf = BytesMut::new();
        assert!(encode_column(typ, v, &mut buf).is_ok());
        let mut slice: &[u8] = &buf;
        let code = type_code(typ).expect("the type has a code");
        let read = decode_column_value(&mut slice, code).expect("a column is read");
        assert_eq!(show(&read.expect("the column is not null")), show(v));
        assert!(slice.is_empty());
    }
}

#[test]
fn column_types_have_these_codes() {
    assert_eq!(type_code(&native(NativeType::Ascii)), Some(0x0001));
    assert_eq!(type_code(&native(NativeType::Text)), Some(0x000D));
    assert_eq!(type_code(&native(NativeType::Duration)), Some(0x0015));
    assert_eq!(type_code(&ColumnType::List(Box::new(native(NativeType::Int)))), Some(0x0020));
    assert_eq!(type_code(&ColumnType::Other), None);
}

#[test]
fn short_columns_are_refused() {
    let mut slice: &[u8] = &[0, 0, 0, 3, 1, 2, 3];
    assert_eq!(
        decode_column_value(&mut slice, 0x0009).err(),
        Some(CodecError::InvalidLength(0x0009, 3))
    );
    let mut slice: &[u8] = &[0, 0, 0, 5, 1];
    assert_eq!(
        decode_column_value(&mut slice, 0x0003).err(),
        Some(CodecError::UnexpectedEof(Part::ColumnValue))
    );
    assert_eq!(slice, [1]);
    let mut slice: &[u8] = &[0xFF, 0xFF, 0xFF, 0xFF];
    assert!(matches!(decode_column_value(&mut slice, 0x0009), Ok(None)));
    assert!(matches!(decode_column_value_from_bytes(&[], 0x0009), Ok(None)));
    let list: &[u8] = &[0xFF, 0xFF, 0xFF, 0xFE];
    assert_eq!(
        decode_column_value_from_bytes(list, 0x0020).err(),
        Some(CodecError::NegativeCount(-2))
    );
}

#[test]
fn text_columns_are_read_leniently() {
    let read = decode_column_value_from_bytes(&[b'a', 0xFF], 0x000D).expect("a text is read");
    assert_eq!(show(&read.expect("a value")), show(&CqlValue::Text("a\u{FFFD}".to_string())));
}

#[test]
fn rows_without_rows() {
    let mut slice: &[u8] = &[0, 0, 0, 0, 0, 0, 0, 0, 0, 0, 0, 0];
    match decode_rows_result(&mut slice) {
        Ok(QueryResult::Rows { columns, rows }) => {
            assert!(columns.is_empty());
            assert!(rows.is_empty());
        }
        other => panic!("{:?}", other),
    }
    let mut slice: &[u8] = &[0, 0, 0, 0, 0xFF, 0xFF, 0xFF, 0xFF];
    assert_eq!(decode_rows_result(&mut slice).err(), Some(CodecError::NegativeCount(-1)));
}

#[test]
fn integers_of_any_size_are_read() {
    assert_eq!(read_int_flexible(&[0x80]), Ok(-128));
    assert_eq!(read_int_flexible(&[0x01, 0x00]), Ok(256));
    assert_eq!(read_int_flexible(&[0, 0, 1, 0]), Ok(256));
    assert_eq!(read_int_flexible(&[0, 0, 0, 0, 0, 0, 1, 0]), Ok(256));
    assert_eq!(read_int_flexible(&[1, 2, 3]), Err(CodecError::IntegerLength(3)));
}

#[test]
fn typed_values_are_refused() {
    assert_eq!(decode_typed_value_by_code(&[], 0x0004).err(), Some(CodecError::EmptyBoolean));
    assert_eq!(
        decode_typed_value_by_code(&[0xFF], 0x000D).err(),
        Some(CodecError::InvalidText(NativeType::Text))
    );
    assert_eq!(
        decode_typed_value_by_code(&[0, 0x0D, 0, 1, 0, 0, 0, 0], 0x0030).err(),
        Some(CodecError::VectorSubtype(0x000D))
    );
    assert_eq!(
        decode_typed_value_by_code(&[0, 8, 0, 2, 0, 0, 0, 0], 0x0030).err(),
        Some(CodecError::VectorSizeMismatch(VectorKind::Value, 8, 4))
    );
}

#[test]
fn small_numbers_in_variable_length() {
    let mut out = Vec::new();
    encode_vint(0, &mut out);
    encode_vint(-1, &mut out);
    encode_vint(63, &mut out);
    assert_eq!(out, [0, 1, 126]);
    let mut slice: &[u8] = &out;
    assert_eq!(decode_vint(&mut slice), Ok(0));
    assert_eq!(decode_vint(&mut slice), Ok(-1));
    assert_eq!(decode_vint(&mut slice), Ok(63));
    assert_eq!(decode_vint(&mut slice), Err(CodecError::UnexpectedEof(Part::Vint)));
    let mut long: &[u8] = &[0xFF; 12];
    assert_eq!(decode_vint(&mut long), Err(CodecError::VintOverflow));
    assert_eq!(long.len(), 2);
}

#[test]
fn large_numbers_in_variable_length() {
    let bytes = |v: i64| {
        let mut out = Vec::new();
        encode_vint(v, &mut out);
        out
    };
    assert_eq!(bytes(64), [0x81, 0x00]);
    assert_eq!(bytes(1 << 13), [0x81, 0x80, 0x00]);
    assert_eq!(bytes(1 << 20), [0x81, 0x80, 0x80, 0x00]);
    assert_eq!(bytes(1 << 27), [0x81, 0x80, 0x80, 0x80, 0x00]);
    let lowest = bytes(i64::MIN);
    assert_eq!(lowest.len(), 10);
    assert_eq!(lowest[0], 0x81);
    assert_eq!(lowest[9], 0x7F);
    assert!(lowest[1..9].iter().all(|b| *b == 0xFF));
    let read = |v: i64| {
        let out = bytes(v);
        let mut slice: &[u8] = &out;
        let n = decode_vint(&mut slice);
        assert!(slice.is_empty());
        n
    };
    assert_eq!(read(-65), Ok(-65));
    assert_eq!(read(64), Ok(-1));
    assert_eq!(read(1 << 27), Ok(-1));
}

#[test]
fn maps_with_nulls() {
    let entries = |data: &[u8]| match decode_column_value_from_bytes(data, 0x0021) {
        Ok(Some(CqlValue::MapOf(entries))) => {
            entries.iter().map(|e| (show(&e.0), show(&e.1))).collect::<Vec<_>>()
        }
        other => panic!("{:?}", other),
    };
    let blob = |b: u8| show(&CqlValue::Blob(vec![b]));
    let mut slice: &[u8] =
        &[0, 0, 0, 13, 0, 0, 0, 1, 0, 0, 0, 1, 0x6B, 0xFF, 0xFF, 0xFF, 0xFF];
    match decode_column_value(&mut slice, 0x0021) {
        Ok(Some(CqlValue::MapOf(entries))) => {
            assert_eq!(entries.len(), 1);
            assert_eq!(show(&entries[0].0), blob(0x6B));
            assert_eq!(show(&entries[0].1), show(&CqlValue::Empty));
        }
        other => panic!("{:?}", other),
    }
    let null_key = [
        0, 0, 0, 2, 0xFF, 0xFF, 0xFF, 0xFF, 0, 0, 0, 1, 9, 0, 0, 0, 1, 7, 0, 0, 0, 1, 8,
    ];
    assert_eq!(entries(&null_key), [(blob(7), blob(8))]);
    assert_eq!(
        decode_column_value_from_bytes(&null_key[..12], 0x0021).err(),
        Some(CodecError::UnexpectedEof(Part::MapValue))
    );
}

#[test]
fn durations_are_read() {
    let of = |months: i32, days: i32, nanoseconds: i64| CqlDuration { months, days, nanoseconds };
    assert_eq!(parse_duration_string("1y2mo3d"), Ok(of(14, 3, 0)));
    assert_eq!(parse_duration_string("1h1m1s"), Ok(of(0, 0, 3_661_000_000_000)));
    assert_eq!(parse_duration_string("1ms1us1ns"), Ok(of(0, 0, 1_001_001)));
    assert_eq!(parse_duration_string("5x"), Err(CodecError::DurationUnit('x')));
    assert_eq!(parse_duration_string("999999999999999999y"), Err(CodecError::DurationRange));
    assert_eq!(parse_duration_string("99999999999999999999d"), Err(CodecError::DurationNumber));
}

#[test]
fn days_and_clocks() {
    assert_eq!(day_to_date(719_163), 1 << 31);
    assert_eq!(day_to_date(719_164), (1 << 31) + 1);
    assert_eq!(clock_to_nanos(3661, 5), 3_661_000_000_005);
    assert_eq!(show(&date_value(Some(719_163)).unwrap()), show(&CqlValue::Date(1 << 31)));
    assert_eq!(date_value(None).err(), Some(CodecError::InvalidDate));
    assert_eq!(show(&time_value(Some((1, 2))).unwrap()), show(&CqlValue::Time(1_000_000_002)));
    assert_eq!(time_value(None).err(), Some(CodecError::InvalidTime));
    assert_eq!(decimal_value(None).err(), Some(CodecError::InvalidDecimal));
}

fn from_text(text: &str, t: NativeType) -> Result<CqlValue, CodecError> {
    convert_value(text.as_bytes(), 0x000D, Some(&native(t)), None)
}

#[test]
fn texts_become_what_the_column_holds() {
    assert_eq!(
        show(&from_text("1970-01-02", NativeType::Date).unwrap()),
        show(&CqlValue::Date((1 << 31) + 1))
    );
    assert_eq!(
        show(&from_text("01:00:01", NativeType::Time).unwrap()),
        show(&CqlValue::Time(3_601_000_000_000))
    );
    assert_eq!(
        show(&from_text("-1.25", NativeType::Decimal).unwrap()),
        show(&CqlValue::Decimal { mantissa: (-125i128).to_be_bytes().to_vec(), scale: 2 })
    );
    let uuid = "00010203-0405-0607-0809-0a0b0c0d0e0f";
    let octets = [0, 1, 2, 3, 4, 5, 6, 7, 8, 9, 10, 11, 12, 13, 14, 15];
    assert_eq!(
        show(&from_text(uuid, NativeType::Timeuuid).unwrap()),
        show(&CqlValue::Timeuuid(octets))
    );
    assert_eq!(
        show(&from_text("1d", NativeType::Duration).unwrap()),
        show(&CqlValue::Duration(CqlDuration { months: 0, days: 1, nanoseconds: 0 }))
    );
    let address = IpAddr::V4([127, 0, 0, 1]);
    let read =
        convert_value(b"127.0.0.1", 0x000D, Some(&native(NativeType::Inet)), Some(address));
    assert_eq!(show(&read.unwrap()), show(&CqlValue::Inet(address)));
    assert_eq!(
        show(&from_text("as it is", NativeType::Text).unwrap()),
        show(&CqlValue::Text("as it is".to_string()))
    );
}

#[test]
fn texts_that_the_column_cannot_hold() {
    assert_eq!(from_text("x", NativeType::Date).err(), Some(CodecError::InvalidDate));
    assert_eq!(from_text("x", NativeType::Time).err(), Some(CodecError::InvalidTime));
    assert_eq!(from_text("x", NativeType::Decimal).err(), Some(CodecError::InvalidDecimal));
    assert_eq!(from_text("x", NativeType::Timeuuid).err(), Some(CodecError::InvalidUuid));
    assert_eq!(from_text("x", NativeType::Inet).err(), Some(CodecError::InvalidInet));
}

#[test]
fn wide_integers_are_narrowed() {
    let seven = CqlValue::BigInt(7);
    assert_eq!(
        show(&coerce_value(seven, &native(NativeType::TinyInt)).unwrap()),
        show(&CqlValue::TinyInt(7))
    );
    let wide = [0u8, 0, 0, 0, 0, 0, 1, 0];
    assert_eq!(
        convert_value(&wide, 0x0002, Some(&native(NativeType::TinyInt)), None).err(),
        Some(CodecError::OutOfRange(Wide::BigIntValue, 256, NativeType::TinyInt))
    );
}

#[test]
fn refusals_are_put_into_words() {
    assert_eq!(codec_message(CodecError::DurationUnit('x')), "invalid duration unit: x");
    assert_eq!(
        codec_message(CodecError::UnexpectedEof(Part::Bytes(4, 1))),
        "unexpected EOF: need 4 bytes, have 1"
    );
    assert_eq!(
        codec_message(CodecError::VectorSubtype(0x0D)),
        "only vector<float> is currently supported, got subtype 0xd"
    );
    assert_eq!(
        codec_message(CodecError::VectorDimension(3, 2)),
        "vector dimension mismatch: expected 3, got 2"
    );
    assert_eq!(codec_message(CodecError::EmptyBoolean), "empty boolean value");
}

#[test]
fn numbers_and_texts() {
    for n in [0u64, 9, 10, 4096, u64::MAX] {
        assert_eq!(decimal_text(n), n.to_string());
        assert_eq!(parse_u64(&decimal_text(n)), Some(n));
    }
    for n in [0i64, -1, i64::MIN, i64::MAX] {
        assert_eq!(signed_decimal_text(n), n.to_string());
        assert_eq!(parse_i64(&signed_decimal_text(n)), Some(n));
    }
    assert_eq!(hex_text(0), "0");
    assert_eq!(hex_text(0xBEEF), format!("{:x}", 0xBEEF));
    for text in ["", "-", "+", "18446744073709551616", "-1", "1x", " 1"] {
        assert_eq!(parse_u64(text), text.parse::<u64>().ok());
    }
    for text in ["+1", "007"] {
        assert_eq!(parse_u64(text), text.parse::<u64>().ok());
    }
    for text in ["9223372036854775808", "-9223372036854775808", "-9223372036854775809", "+5", "-"] {
        assert_eq!(parse_i64(text), text.parse::<i64>().ok());
    }
    for text in ["1", "1.5", ".5", "5.", ".", "1e5", "1e", "-1E+5", "inf", "NaN", "infinity", "", "+", "0x1"] {
        assert_eq!(spells_float(text), text.parse::<f64>().is_ok(), "{}", text);
    }
}

#[test]
fn consistency_levels_have_numbers() {
    for level in [
        Consistency::Any,
        Consistency::One,
        Consistency::Two,
        Consistency::Three,
        Consistency::Quorum,
        Consistency::All,
        Consistency::LocalQuorum,
        Consistency::EachQuorum,
        Consistency::Serial,
        Consistency::LocalSerial,
        Consistency::LocalOne,
    ] {
        assert_eq!(Consistency::from_u16_or_one(level.as_u16()), level);
    }
    assert_eq!(Consistency::LocalOne.as_u16(), 0x000A);
    assert_eq!(Consistency::from_u16_or_one(0x7777), Consistency::One);
}
