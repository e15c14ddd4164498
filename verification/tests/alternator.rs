//! The Alternator protocol: what is sent and what comes back.

use bytes::{BufMut, BytesMut};
use latte_ipc::error::{CodecError, Part};
use latte_ipc::ipc::alternator_client::{
    encode_batch_get_request, encode_batch_write_request, encode_close_session,
    encode_delete_item_request, encode_get_item_request, encode_put_item_request,
    encode_query_request, encode_scan_request, encode_session_params, encode_update_item_request,
    BatchGetRequestItems, BatchWriteRequest,
};
use latte_ipc::ipc::alternator_codec::{
    read_attribute_value, read_item, read_key, write_attribute_value, write_item, write_key,
    write_string,
};
use latte_ipc::ipc::alternator_protocol::{
    decode_error, decode_header, encode_request, end_of_stream, take_frame,
    AlternatorProtocolError, ErrorCode, Frame, RequestOpcode, ResponseOpcode,
};
use latte_ipc::ipc::alternator_results::{
    decode_batch_get_result, decode_batch_write_result, decode_item_result, decode_query_result,
    decode_session_closed, decode_session_created, failure_message, AlternatorError,
};
use latte_ipc::ipc::attribute::{get_attribute, set_attribute, AttributeValue};
use latte_ipc::string_map::StringMap;
use latte_ipc::text_map::TextMap;

fn s(text: &str) -> AttributeValue {
    AttributeValue::S(text.to_string())
}

fn item() -> Vec<(String, AttributeValue)> {
    vec![("id".to_string(), s("x"))]
}

/// The bytes of the item above, behind the number of its attributes.
const ENTRY: [u8; 12] = [0, 0, 0, 2, b'i', b'd', 3, 0, 0, 0, 1, b'x'];

fn reply(opcode: u8, body: &[u8]) -> Frame {
    let mut buffer = BytesMut::new();
    buffer.put_u8(0x81);
    buffer.put_u8(0);
    buffer.put_i16(7);
    buffer.put_u8(opcode);
    buffer.put_slice(&[0, 0, 0]);
    buffer.put_u32(body.len() as u32);
    buffer.put_slice(body);
    match take_frame(&mut buffer) {
        Ok(Some(frame)) => frame,
        other => panic!("{:?}", other),
    }
}

#[test]
fn attributes_have_these_bytes() {
    let mut buf = BytesMut::new();
    write_item(&mut buf, &item());
    assert_eq!(&buf[..4], [0, 0, 0, 1]);
    assert_eq!(&buf[4..], ENTRY);
    let mut buf = BytesMut::new();
    write_key(&mut buf, &item());
    assert_eq!(&buf[..2], [0, 1]);
    assert_eq!(&buf[2..], ENTRY);
    let mut buf = BytesMut::new();
    write_attribute_value(&mut buf, &AttributeValue::Bool(true));
    write_attribute_value(&mut buf, &AttributeValue::Null(true));
    write_string(&mut buf, "é");
    assert_eq!(&buf[..], [1, 1, 0, 0, 0, 0, 2, 0xC3, 0xA9]);
}

#[test]
fn attributes_come_back() {
    let values = [
        AttributeValue::Null(true),
        AttributeValue::Bool(false),
        AttributeValue::N("-1.5".to_string()),
        s("text"),
        AttributeValue::B(vec![0, 255]),
        AttributeValue::Ss(vec!["a".to_string(), "b".to_string()]),
        AttributeValue::Ns(vec!["1".to_string()]),
        AttributeValue::Bs(vec![vec![1], vec![]]),
        AttributeValue::L(vec![s("a"), AttributeValue::L(vec![])]),
        AttributeValue::M(item()),
    ];
    for v in &values {
        let mut buf = BytesMut::new();
        write_attribute_value(&mut buf, v);
        buf.put_u8(9);
        let mut slice: &[u8] = &buf;
        let read = read_attribute_value(&mut slice).expect("it was written");
        assert_eq!(format!("{:?}", read), format!("{:?}", v));
        assert_eq!(slice, [9]);
        assert_eq!(format!("{:?}", v.copy()), format!("{:?}", v));
    }
    let mut buf = BytesMut::new();
    write_item(&mut buf, &item());
    write_key(&mut buf, &item());
    let mut slice: &[u8] = &buf;
    assert_eq!(format!("{:?}", read_item(&mut slice).unwrap()), format!("{:?}", item()));
    assert_eq!(format!("{:?}", read_key(&mut slice).unwrap()), format!("{:?}", item()));
}

#[test]
fn attributes_that_cannot_be_read() {
    let mut slice: &[u8] = &[];
    assert_eq!(
        read_attribute_value(&mut slice).err(),
        Some(CodecError::UnexpectedEof(Part::AttributeType))
    );
    let mut slice: &[u8] = &[3, 0, 0, 0, 5, b'a'];
    assert_eq!(
        read_attribute_value(&mut slice).err(),
        Some(CodecError::UnexpectedEof(Part::StringBody))
    );
}

#[test]
fn an_item_has_one_value_for_a_name() {
    let mut i = item();
    set_attribute(&mut i, "id".to_string(), s("y"));
    set_attribute(&mut i, "n".to_string(), s("z"));
    assert_eq!(i.len(), 2);
    assert!(matches!(get_attribute(&i, "id"), Some(AttributeValue::S(t)) if t == "y"));
    assert!(get_attribute(&i, "none").is_none());
}

#[test]
fn alternator_frames_come_back() {
    let bytes = encode_request(RequestOpcode::GetItem, -2, b"body");
    assert_eq!(bytes.len(), 16);
    let header = decode_header(&bytes).expect("the header is complete");
    assert_eq!(header.stream, -2);
    assert_eq!(header.opcode, RequestOpcode::GetItem.as_u8());
    assert_eq!(header.body_length, 4);
    let mut buffer = BytesMut::from(&bytes[..15]);
    assert!(matches!(take_frame(&mut buffer), Ok(None)));
    assert!(matches!(end_of_stream(&buffer), Err(AlternatorProtocolError::UnexpectedEof)));
    buffer.put_u8(b'y');
    match take_frame(&mut buffer) {
        Ok(Some(frame)) => assert_eq!(&frame.body[..], b"body"),
        other => panic!("{:?}", other),
    }
    assert!(matches!(end_of_stream(&buffer), Ok(None)));
    assert!(matches!(decode_header(&[0; 11]), Err(AlternatorProtocolError::UnexpectedEof)));
}

#[test]
fn responses_are_told_apart() {
    for n in 0..=255u8 {
        match ResponseOpcode::try_from(n) {
            Ok(ResponseOpcode::Error) => assert_eq!(n, 0x00),
            Ok(_) => assert!(n != 0),
            Err(e) => assert_eq!(e, AlternatorProtocolError::UnknownOpcode(n)),
        }
    }
    assert_eq!(ErrorCode::ConditionalCheckFailed.as_u32(), 0x0010);
}

#[test]
fn operations_have_these_bodies() {
    let head = |rest: &[u8]| {
        let mut b = vec![0, 0, 0, 0, 0, 0, 0, 3, 0, 0, 0, 1, b't'];
        b.extend_from_slice(rest);
        b
    };
    let key = |rest: &[u8]| {
        let mut b = vec![0, 1];
        b.extend_from_slice(&ENTRY);
        b.extend_from_slice(rest);
        b
    };
    let get = encode_get_item_request(3, "t", &item(), true, None, None);
    assert_eq!(get[..29], head(&[&[0, 1], &ENTRY[..], &[1, 0]].concat())[..29]);
    let put = encode_put_item_request(3, "t", &item(), None, None, None, 0);
    assert_eq!(put[..29], head(&[&[0, 0, 0, 1], &ENTRY[..]].concat())[..]);
    let delete = encode_delete_item_request(3, "t", &item(), None, None, None, 1);
    assert_eq!(delete[..27], head(&key(&[]))[..]);
    let update =
        encode_update_item_request(3, "t", &item(), "SET", Some("c"), None, None, 0);
    assert_eq!(update[..27], head(&key(&[]))[..]);
    let query = encode_query_request(
        3, "t", None, "k", None, None, None, None, Some(5), false, true, None,
    );
    assert_eq!(query[..13], head(&[])[..]);
    let scan =
        encode_scan_request(3, "t", None, None, None, None, None, None, false, None, None, None);
    assert_eq!(scan[..13], head(&[])[..]);
    assert_eq!(&encode_close_session(3)[..], [0, 0, 0, 0, 0, 0, 0, 3]);
    let mut params = StringMap::new();
    params.insert("k".to_string(), "v".to_string());
    assert_eq!(
        &encode_session_params(&params)[..],
        [0, 1, 0, 0, 0, 1, b'k', 0, 0, 0, 1, b'v']
    );
}

#[test]
fn batches_have_these_bodies() {
    let mut gets = TextMap::new();
    gets.insert(
        "t".to_string(),
        BatchGetRequestItems {
            keys: vec![item()],
            consistent_read: true,
            projection_expression: None,
            expression_attribute_names: None,
        },
    );
    let body = encode_batch_get_request(3, &gets);
    let front = [0, 0, 0, 0, 0, 0, 0, 3, 0, 1, 0, 0, 0, 1, b't', 0, 0, 0, 1, 0, 1];
    assert_eq!(body[..21], front);
    assert_eq!(body[21..33], ENTRY);
    assert_eq!(body[33], 1);
    let mut writes = TextMap::new();
    writes.insert(
        "t".to_string(),
        vec![BatchWriteRequest::Put(item()), BatchWriteRequest::Delete(item())],
    );
    let body = encode_batch_write_request(3, &writes);
    assert_eq!(body[..15], front[..15]);
    assert_eq!(body[15..24], [0, 0, 0, 2, 1, 0, 0, 0, 1]);
    assert_eq!(body[36..39], [2, 0, 1]);
}

#[test]
fn sessions_are_created_and_closed() {
    let frame = reply(code_of(ResponseOpcode::SessionCreated), &[0, 0, 0, 0, 0, 0, 0, 9]);
    assert!(matches!(decode_session_created(&frame), Ok(9)));
    let short = reply(frame.header.opcode, &[0; 3]);
    assert!(matches!(decode_session_created(&short), Err(AlternatorError::BodyTooShort(3))));
    assert!(decode_session_closed(&reply(code_of(ResponseOpcode::SessionClosed), &[])).is_ok());
    assert!(decode_session_closed(&frame).is_ok());
    assert!(matches!(
        decode_session_closed(&reply(0x00, &[])),
        Err(AlternatorError::Failed { code: 0, .. })
    ));
    let closed = reply(code_of(ResponseOpcode::SessionClosed), &[]);
    assert!(matches!(
        decode_session_created(&closed),
        Err(AlternatorError::UnexpectedOpcode(ResponseOpcode::SessionClosed))
    ));
    assert!(matches!(
        decode_session_created(&reply(0xEE, &[])),
        Err(AlternatorError::UnknownOpcode(0xEE))
    ));
}

fn code_of(wanted: ResponseOpcode) -> u8 {
    (0..=255u8)
        .find(|n| ResponseOpcode::try_from(*n) == Ok(wanted))
        .expect("every response has a number")
}

#[test]
fn results_are_read() {
    let latency = [1, 0, 0, 0, 0, 0, 0, 0, 77];
    let body = [&[1u8, 0, 0, 0, 1], &ENTRY[..], &latency].concat();
    let got = decode_item_result(&reply(code_of(ResponseOpcode::ItemResult), &body)).unwrap();
    assert_eq!(format!("{:?}", got.item.unwrap()), format!("{:?}", item()));
    assert_eq!(got.driver_latency_ns, 77);
    let body = [&[0u8][..], &latency].concat();
    let got = decode_item_result(&reply(code_of(ResponseOpcode::ItemResult), &body)).unwrap();
    assert!(got.item.is_none());
    let body = [&[0u8, 0, 0, 1, 0, 0, 0, 1], &ENTRY[..], &[0, 0, 0, 0, 4], &latency].concat();
    let page = decode_query_result(&reply(code_of(ResponseOpcode::QueryResult), &body)).unwrap();
    assert_eq!(page.items.len(), 1);
    assert!(page.last_evaluated_key.is_none());
    assert_eq!(page.scanned_count, 4);
    let table = [0u8, 1, 0, 0, 0, 1, b't', 0, 0, 0, 1];
    let body = [&table, &[0, 0, 0, 1][..], &ENTRY, &[0, 0], &latency].concat();
    let batch = code_of(ResponseOpcode::BatchResult);
    let got = decode_batch_get_result(&reply(batch, &body)).unwrap();
    assert_eq!(got.responses.get("t").map(|v| v.len()), Some(1));
    assert!(got.unprocessed_keys.is_empty());
    let body = [&[0u8, 0, 0, 0], &table[..], &[2, 0, 1], &ENTRY, &latency].concat();
    let got = decode_batch_write_result(&reply(batch, &body)).unwrap();
    assert_eq!(got.unprocessed_items_count, 1);
    let body = [&[0u8, 0, 0, 0], &table[..], &[5, 0, 1], &ENTRY, &latency].concat();
    assert!(matches!(
        decode_batch_write_result(&reply(batch, &body)),
        Err(AlternatorError::Codec(CodecError::UnknownWriteRequest(5)))
    ));
    assert!(matches!(
        decode_item_result(&reply(code_of(ResponseOpcode::ItemResult), &[])),
        Err(AlternatorError::Codec(CodecError::UnexpectedEof(Part::Bool)))
    ));
}

#[test]
fn failures_are_read() {
    let body = [0, 0, 0, 0x10, 0, 0, 0, 1, b'K', 0, 0, 0, 2, b'm', 0xFF];
    let frame = reply(0x00, &body);
    assert_eq!(
        decode_error(&frame.body),
        (0x10, "K".to_string(), "m\u{FFFD}".to_string())
    );
    assert!(matches!(
        decode_query_result(&frame),
        Err(AlternatorError::Failed { code: 0x10, kind, message })
            if kind == "K" && message == "m\u{FFFD}"
    ));
    assert_eq!(failure_message("GetItem failed", 16, "K", "m"), "GetItem failed: m (code=16, type=K)");
    assert_eq!(
        decode_error(&reply(0x00, &[1]).body),
        (0, "UnknownError".to_string(), "body too short".to_string())
    );
}

#[test]
fn items_that_are_cut_off() {
    let mut slice: &[u8] = &[0, 0, 0, 1, 0, 0, 0, 1, b'a', 0x03, 0, 0, 0, 5, 1];
    assert_eq!(
        read_item(&mut slice).err(),
        Some(CodecError::UnexpectedEof(Part::StringBody))
    );
    assert_eq!(slice, [1]);
}
