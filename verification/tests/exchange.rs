//! The client and the adapter: what the one sends, the other reads.

use bytes::{Bytes, BytesMut};
use latte_ipc::cql_adapter::server::{
    after_refused, append_latency_to_frame, dispatch, execute_message, respond,
    session_created_frame, unbound, Done, Retry, Step,
};
use latte_ipc::cql_adapter::config::DriverConfig as SocketConfig;
use latte_ipc::driver_adapter::config::{parse_inflight, ConfigError, DriverConfig};
use latte_ipc::driver_adapter::convert::{address_text, convert_to_typed_values, RawValue};
use latte_ipc::driver_adapter::driver_integration::{
    check_reply, decode_created, DriverSessionBuilder,
};
use latte_ipc::driver_adapter::frames::{
    build_prepared_frame, build_rows_frame, void_frame, ColumnSpec,
};
use latte_ipc::driver_adapter::plan::{
    parse_consistency, parse_contact_points, parse_serial_consistency, plan_session, PlanError,
};
use latte_ipc::driver_adapter::protocol::{
    encode_response, end_of_stream as end_of_requests, error_frame, take_frame as take_request,
    ErrorCode, FrameError,
};
use latte_ipc::driver_adapter::registry::{
    batch_type_of, result_frame, BatchType, BindError, CachedPrepared, Executed, PreparedCache,
    SessionRegistry,
};
use latte_ipc::driver_adapter::session::{
    parse_batch_frame, parse_execute_frame, parse_prepare_frame, parse_query_frame, read_string,
    read_string_map, ParseError, Request,
};
use latte_ipc::error::{CodecError, Limit, Part};
use latte_ipc::ipc::client::{
    decode_batch_result, decode_prepared, decode_result, decode_session_created,
    encode_batch_body, encode_execute_body, encode_prepare_body, encode_query_body,
    encode_string_map, ReplyError,
};
use latte_ipc::ipc::protocol::{
    decode_error_message, encode_request, end_of_stream, frame_bytes, take_frame, Frame, Opcode,
    ProtocolError,
};
use latte_ipc::ipc::types::QueryResult;
use latte_ipc::string_map::StringMap;
use latte_ipc::value::{
    ColumnType, Consistency, CqlValue, IpAddr, NativeType, SerialConsistency,
};
use std::sync::Arc;

fn request(opcode: Opcode, stream: i16, body: &[u8]) -> Frame {
    let mut buffer = encode_request(opcode, stream, body);
    match take_request(&mut buffer) {
        Ok(Some(frame)) => frame,
        other => panic!("{:?}", other),
    }
}

fn map(entries: &[(&str, &str)]) -> StringMap {
    let mut m = StringMap::new();
    for (k, v) in entries {
        m.insert(k.to_string(), v.to_string());
    }
    m
}

fn config() -> DriverConfig {
    DriverConfig::from_settings(
        Some("/tmp/ipc/driver.sock".to_string()),
        Some("10.0.0.1:9042, 10.0.0.2:9042".to_string()),
        None,
        None,
    )
    .expect("the settings are complete")
}

fn registry() -> SessionRegistry {
    let mut sessions = SessionRegistry::new(config());
    assert!(sessions.is_empty());
    assert_eq!(sessions.create_session(77), 1);
    sessions
}

fn error_text(step: Step) -> (u32, String) {
    match step {
        Step::Reply(frame) => {
            assert_eq!(frame.header.opcode, Opcode::Error);
            let code = u32::from_be_bytes([
                frame.body[0],
                frame.body[1],
                frame.body[2],
                frame.body[3],
            ]);
            (code, decode_error_message(&frame.body))
        }
        _ => panic!("the request was not refused"),
    }
}

#[test]
fn frames_come_back() {
    let bytes = encode_request(Opcode::Query, -3, b"body");
    let mut buffer = BytesMut::from(&bytes[..]);
    buffer.extend_from_slice(b"rest");
    match take_frame(&mut buffer) {
        Ok(Some(frame)) => {
            assert_eq!(frame.header.stream, -3);
            assert_eq!(frame.header.opcode, Opcode::Query);
            assert_eq!(&frame.body[..], b"body");
            assert_eq!(&frame_bytes(&frame)[..], &bytes[..]);
        }
        other => panic!("{:?}", other),
    }
    assert_eq!(&buffer[..], b"rest");
    assert!(matches!(take_frame(&mut buffer), Ok(None)));
    assert!(matches!(end_of_stream(&buffer), Err(ProtocolError::UnexpectedEof)));
    assert!(matches!(end_of_stream(&BytesMut::new()), Ok(None)));
}

#[test]
fn frames_that_cannot_be_read() {
    let mut buffer = BytesMut::from(&[0x84u8, 0, 0, 0, 0x77, 0, 0, 0, 0][..]);
    assert!(matches!(take_frame(&mut buffer), Err(ProtocolError::UnknownOpcode(0x77))));
    let mut buffer = BytesMut::from(&[0x84u8, 0, 0, 0, 0x08, 0x7F, 0, 0, 0][..]);
    assert!(matches!(take_frame(&mut buffer), Err(ProtocolError::BodyTooLarge(0x7F00_0000))));
    let mut buffer = BytesMut::from(&[0x04u8, 0, 0, 0, 0x77, 0, 0, 0, 0][..]);
    assert!(matches!(take_request(&mut buffer), Err(FrameError::UnknownOpcode(0x77))));
}

#[test]
fn sessions_are_asked_for() {
    let params = map(&[("contact_points", "a:1"), ("keyspace", "ks")]);
    let body = encode_string_map(&params).expect("the parameters are short");
    assert_eq!(&body[..2], [0, 2]);
    match dispatch(&request(Opcode::CreateSession, 5, &body), &registry()) {
        Step::CreateSession(read) => {
            assert_eq!(read.len(), 2);
            assert_eq!(read.get("keyspace"), Some(&"ks".to_string()));
        }
        _ => panic!("no session is asked for"),
    }
    let mut longer = body.to_vec();
    longer.push(0);
    assert_eq!(
        error_text(dispatch(&request(Opcode::CreateSession, 5, &longer), &registry())).1,
        "unexpected trailing bytes after session params"
    );
    let long = map(&[("k", &"x".repeat(70_000))]);
    assert_eq!(encode_string_map(&long).err(), Some(CodecError::TooLong(Limit::String)));
}

#[test]
fn parameters_that_are_no_text() {
    let body = [0, 1, 0, 2, b'a', 0xFF, 0, 0];
    let reason = std::str::from_utf8(&[b'a', 0xFF]).unwrap_err().to_string();
    let (code, text) = error_text(dispatch(&request(Opcode::CreateSession, 5, &body), &registry()));
    assert_eq!(code, ErrorCode::Server.as_u32());
    assert!(text.contains(&reason), "{}", text);
}

#[test]
fn queries_are_asked_for() {
    let body = encode_query_body(1, "SELECT 1", Consistency::LocalQuorum);
    match dispatch(&request(Opcode::Query, 5, &body), &registry()) {
        Step::Query(parsed) => {
            assert_eq!(parsed.session_id, 1);
            assert_eq!(parsed.query, "SELECT 1");
            assert_eq!(parsed.consistency, Consistency::LocalQuorum);
        }
        _ => panic!("no query is asked for"),
    }
    let other = encode_query_body(2, "SELECT 1", Consistency::One);
    let (code, text) = error_text(dispatch(&request(Opcode::Query, 5, &other), &registry()));
    assert_eq!(code, ErrorCode::Protocol.as_u32());
    assert_eq!(text, "unknown session id 2");
}

#[test]
fn requests_that_cannot_be_read() {
    let text = |r: ParseError| r.message();
    let short = request(Opcode::Query, 5, &[0; 7]);
    let e = parse_query_frame(&short).unwrap_err();
    assert_eq!(e, ParseError::SessionId(Request::Query));
    assert_eq!(text(e), "failed to decode session id from QUERY body");
    let mut body = encode_query_body(1, "q", Consistency::One).to_vec();
    let last = body.len() - 1;
    body[last] = 0x11;
    let e = parse_query_frame(&request(Opcode::Query, 5, &body)).unwrap_err();
    assert_eq!(e, ParseError::UnsupportedFlags(0x11));
    assert_eq!(text(e), "unsupported QUERY flags: 0x11");
    body.pop();
    let e = parse_query_frame(&request(Opcode::Query, 5, &body)).unwrap_err();
    assert_eq!(e, ParseError::MissingFlags(Request::Query));
    let e = parse_prepare_frame(&request(Opcode::Prepare, 5, &[0; 8])).unwrap_err();
    assert_eq!(e, ParseError::QueryString(Request::Prepare));
    let e = parse_execute_frame(&request(Opcode::Execute, 5, &[0; 8])).unwrap_err();
    assert_eq!(e, ParseError::StatementKey(Request::Execute));
    let e = parse_batch_frame(&request(Opcode::Batch, 5, &[0; 8])).unwrap_err();
    assert_eq!(e, ParseError::MissingBatchType);
    let mut body = vec![0; 8];
    body.extend_from_slice(&[0, 0, 1, 0]);
    let e = parse_batch_frame(&request(Opcode::Batch, 5, &body)).unwrap_err();
    assert_eq!(e, ParseError::UnsupportedStatementKind(0));
    let (code, text) = error_text(dispatch(&request(Opcode::Ready, 5, &[]), &registry()));
    assert_eq!(code, ErrorCode::Protocol.as_u32());
    assert!(text.starts_with("unsupported opcode "), "{}", text);
}

#[test]
fn statements_are_prepared_and_executed() {
    let body = encode_prepare_body(1, "INSERT", "key");
    match dispatch(&request(Opcode::Prepare, 5, &body), &registry()) {
        Step::Prepare(parsed) => {
            assert_eq!(parsed.query, "INSERT");
            assert_eq!(parsed.statement_key, "key");
        }
        _ => panic!("nothing is prepared"),
    }
    let values = [CqlValue::BigInt(7), CqlValue::Text("1.5".to_string()), CqlValue::Empty];
    let body = encode_execute_body(1, "key", Consistency::One, &values).expect("short values");
    let parsed = match dispatch(&request(Opcode::Execute, 5, &body), &registry()) {
        Step::Execute(parsed) => parsed,
        _ => panic!("nothing is executed"),
    };
    let mut cache = PreparedCache::new();
    assert!(cache.get("key").is_none());
    assert!(matches!(
        cache.bind_execute(&parsed, &vec![]),
        Err(BindError::Unprepared(key)) if key == "key"
    ));
    let types = vec![
        ColumnType::Native(NativeType::Int),
        ColumnType::Native(NativeType::Decimal),
        ColumnType::Native(NativeType::Text),
    ];
    cache.insert(
        "key".to_string(),
        CachedPrepared { statement: 9, bind_types: Arc::new(types) },
    );
    assert_eq!(cache.get("key").map(|p| p.statement), Some(9));
    let bound = cache.bind_execute(&parsed, &vec![]).expect("the values fit");
    let expected = vec![
        Some(CqlValue::Int(7)),
        Some(CqlValue::Decimal { mantissa: 15i128.to_be_bytes().to_vec(), scale: 1 }),
        None,
    ];
    assert_eq!(format!("{:?}", bound), format!("{:?}", expected));
}

#[test]
fn batches_are_executed() {
    let one = [CqlValue::Int(1)];
    let statements: [(&str, &[CqlValue]); 2] = [("a", &one), ("b", &[])];
    let body = encode_batch_body(1, &statements, Consistency::Quorum).expect("a small batch");
    let parsed = match dispatch(&request(Opcode::Batch, 5, &body), &registry()) {
        Step::Batch(parsed) => parsed,
        _ => panic!("no batch"),
    };
    assert_eq!(parsed.statements.len(), 2);
    assert_eq!(parsed.statements[0].statement_key, "a");
    assert_eq!(parsed.consistency, Consistency::Quorum);
    assert_eq!(batch_type_of(parsed.batch_type), BatchType::Logged);
    assert_eq!(batch_type_of(1), BatchType::Unlogged);
    assert_eq!(batch_type_of(2), BatchType::Counter);
    assert_eq!(batch_type_of(9), BatchType::Logged);
    let mut cache = PreparedCache::new();
    cache.insert("a".to_string(), CachedPrepared { statement: 1, bind_types: Arc::new(vec![]) });
    assert!(matches!(
        cache.bind_batch(&parsed, &vec![]),
        Err(BindError::Unprepared(key)) if key == "b"
    ));
    cache.insert("b".to_string(), CachedPrepared { statement: 2, bind_types: Arc::new(vec![]) });
    let bound = cache.bind_batch(&parsed, &vec![]).expect("both are prepared");
    assert_eq!(format!("{:?}", bound), "[[Some(Int(1))], []]");
}

#[test]
fn values_that_do_not_fit() {
    let raw = RawValue::Bytes { type_code: 0x000D, data: Bytes::from_static(b"10.0.0.1") };
    let inet = ColumnType::Native(NativeType::Inet);
    assert_eq!(address_text(&raw, &inet), Some("10.0.0.1".to_string()));
    assert_eq!(address_text(&raw, &ColumnType::Native(NativeType::Text)), None);
    assert_eq!(
        convert_to_typed_values(&vec![raw], &vec![inet], &vec![None]).err(),
        Some(CodecError::InvalidInet)
    );
    let raw = RawValue::Bytes { type_code: 0x000D, data: Bytes::from_static(b"10.0.0.1") };
    let inet = ColumnType::Native(NativeType::Inet);
    let read = convert_to_typed_values(&vec![raw], &vec![inet], &vec![Some(IpAddr::V4([10, 0, 0, 1]))]);
    assert_eq!(format!("{:?}", read.unwrap()), "[Some(Inet(V4([10, 0, 0, 1])))]");
    let null = RawValue::Null { type_code: 0x0009 };
    let read = convert_to_typed_values(&vec![null], &vec![], &vec![]).unwrap();
    assert_eq!(format!("{:?}", read), "[None]");
}

#[test]
fn sessions_keep_their_numbers() {
    let mut sessions = registry();
    assert_eq!(sessions.create_session(78), 2);
    assert_eq!(sessions.get(1), Some(77));
    assert_eq!(sessions.get(2), Some(78));
    assert_eq!(sessions.get(3), None);
    assert_eq!(sessions.len(), 2);
    assert!(sessions.remove(1));
    assert!(!sessions.remove(1));
    assert_eq!(sessions.len(), 1);
    assert_eq!(sessions.config().contact_points.len(), 2);
}

fn answered(frame: Frame) -> Frame {
    let mut buffer = encode_response(&frame);
    match take_frame(&mut buffer) {
        Ok(Some(frame)) => frame,
        other => panic!("{:?}", other),
    }
}

#[test]
fn rows_are_answered() {
    let columns = vec![ColumnSpec {
        keyspace: "ks".to_string(),
        table: "t".to_string(),
        name: "c".to_string(),
        typ: ColumnType::Native(NativeType::Int),
    }];
    let rows = vec![vec![Some(CqlValue::Int(4))], vec![None]];
    let frame = build_rows_frame(5, &columns, &rows).expect("the rows are encoded");
    let timed = answered(respond(5, Done::Timed(frame, 1234)));
    match decode_result(&timed) {
        Ok((QueryResult::Rows { columns, rows }, latency)) => {
            assert_eq!(columns[0].name, "c");
            assert_eq!(columns[0].type_code, 0x0009);
            assert_eq!(format!("{:?}", rows), "[[Some(Int(4))], [None]]");
            assert_eq!(latency, Some(1234));
        }
        other => panic!("{:?}", other),
    }
    let other = vec![ColumnSpec {
        keyspace: String::new(),
        table: String::new(),
        name: String::new(),
        typ: ColumnType::Other,
    }];
    assert_eq!(
        build_rows_frame(5, &other, &vec![]).err(),
        Some(CodecError::UnsupportedColumnType)
    );
    let executed = Executed::Rows { columns, rows };
    assert!(result_frame(5, &executed).is_ok());
}

#[test]
fn results_without_rows_are_answered() {
    let frame = answered(append_latency_to_frame(void_frame(5), u128::MAX));
    assert!(matches!(decode_result(&frame), Ok((QueryResult::Void, Some(u64::MAX)))));
    assert!(matches!(decode_result(&answered(void_frame(5))), Ok((QueryResult::Void, None))));
    let frame = answered(result_frame(5, &Executed::Void).unwrap());
    assert!(matches!(decode_batch_result(&frame), Ok(None)));
    let frame = answered(build_prepared_frame(5, "key").unwrap());
    assert!(decode_prepared(&frame).is_ok());
    let frame = answered(respond(5, Done::Created(9)));
    assert!(matches!(decode_session_created(&frame), Ok(9)));
    assert!(matches!(decode_created(&session_created_frame(5, 9)), Ok(9)));
}

#[test]
fn refusals_reach_the_client() {
    let frame = answered(error_frame(5, ErrorCode::Overloaded, "busy"));
    assert_eq!(frame.header.stream, 5);
    assert!(matches!(decode_result(&frame), Err(ReplyError::Failed(m)) if m == "busy"));
    assert!(matches!(decode_session_created(&frame), Err(ReplyError::Failed(m)) if m == "busy"));
    assert!(matches!(check_reply(frame), Err(ReplyError::Failed(m)) if m == "busy"));
    let frame = answered(respond(5, Done::Unprepared("k".to_string())));
    assert!(matches!(
        decode_result(&frame),
        Err(ReplyError::Failed(m)) if m == "statement 'k' not prepared"
    ));
    let frame = answered(respond(5, Done::Failed("no".to_string())));
    assert!(matches!(decode_prepared(&frame), Err(ReplyError::Failed(m)) if m == "no"));
    assert_eq!(execute_message("k", 3), "execute failed for statement 'k' with 3 values");
}

#[test]
fn answers_that_the_client_does_not_expect() {
    let frame = answered(session_created_frame(5, 9));
    assert!(matches!(
        decode_result(&frame),
        Err(ReplyError::UnexpectedOpcode(Opcode::SessionCreated))
    ));
    let frame = answered(void_frame(5));
    assert!(matches!(
        decode_session_created(&frame),
        Err(ReplyError::UnexpectedOpcode(Opcode::Result))
    ));
}

#[test]
fn the_adapter_tries_for_a_while() {
    assert_eq!(after_refused(0), Retry::After(100));
    assert_eq!(after_refused(29_999), Retry::After(100));
    assert_eq!(after_refused(30_000), Retry::GiveUp);
}

#[test]
fn settings_of_the_adapter() {
    let c = config();
    assert_eq!(c.contact_points, ["10.0.0.1:9042", "10.0.0.2:9042"]);
    assert_eq!(c.socket_parent(), Some("/tmp/ipc".to_string()));
    assert_eq!(
        DriverConfig::from_settings(None, Some(" , ".to_string()), None, None).err(),
        Some(ConfigError::NoContactPoints)
    );
    assert_eq!(
        DriverConfig::from_settings(None, None, None, Some("x".to_string())).err(),
        Some(ConfigError::InflightLimit)
    );
    assert_eq!(parse_inflight(Some("12".to_string())), Some(12));
}

#[test]
fn end_of_the_requests() {
    assert!(matches!(end_of_requests(&BytesMut::new()), Ok(None)));
    let rest = BytesMut::from(&[0x04, 0x00][..]);
    assert!(matches!(end_of_requests(&rest), Err(FrameError::UnexpectedEof)));
}

#[test]
fn strings_that_cannot_be_read() {
    let after = |bytes: &'static [u8]| {
        let mut slice = bytes;
        let read = read_string(&mut slice);
        (read, slice)
    };
    assert_eq!(after(&[0, 1, b'a', 9]), (Ok("a".to_string()), &[9u8][..]));
    assert_eq!(after(&[7]), (Err(CodecError::UnexpectedEof(Part::Short)), &[7u8][..]));
    assert_eq!(
        after(&[0, 2, 7]),
        (Err(CodecError::UnexpectedEof(Part::StringBody)), &[7u8][..])
    );
    assert_eq!(after(&[0, 1, 0xFF, 9]), (Err(CodecError::InvalidUtf8), &[9u8][..]));
    let mut slice: &[u8] = &[0, 1, 0, 1, b'k', 0];
    assert_eq!(read_string_map(&mut slice).err(), Some(CodecError::UnexpectedEof(Part::Short)));
    assert_eq!(slice, [0]);
}

#[test]
fn responses_that_may_wait() {
    let queue = |inflight: &str| {
        SocketConfig::from_settings(None, Some(inflight.to_string()))
            .map(|config| config.response_queue())
            .ok()
    };
    assert_eq!(queue("1"), Some(64));
    assert_eq!(queue("64"), Some(64));
    assert_eq!(queue("65"), Some(65));
    assert_eq!(queue("many"), None);
}

#[test]
fn plans_of_sessions() {
    let params = map(&[
        ("contact_points", "h1:1, h2:2"),
        ("keyspace", "ks"),
        ("username", "u"),
        ("password", "p"),
        ("datacenter", "dc"),
        ("rack", "r"),
        ("consistency", "QUORUM"),
        ("serial_consistency", "SERIAL"),
        ("request_timeout_ms", "5000"),
        ("connections_per_shard", "3"),
    ]);
    let plan = plan_session(&config(), &params).expect("a plan");
    assert_eq!(plan.contact_points, ["h1:1", "h2:2"]);
    assert_eq!(plan.keyspace.as_deref(), Some("ks"));
    assert_eq!(plan.credentials, Some(("u".to_string(), "p".to_string())));
    assert_eq!(plan.datacenter.as_deref(), Some("dc"));
    assert_eq!(plan.rack.as_deref(), Some("r"));
    assert_eq!(plan.consistency, Some(Consistency::Quorum));
    assert_eq!(plan.serial_consistency, Some(SerialConsistency::Serial));
    assert_eq!(plan.request_timeout_ms, Some(5000));
    assert_eq!(plan.connections_per_shard, Some(3));
    assert!(plan.needs_profile());
    let plan = plan_session(&config(), &StringMap::new()).expect("the defaults");
    assert_eq!(plan.contact_points, ["10.0.0.1:9042", "10.0.0.2:9042"]);
    assert!(!plan.needs_profile());
    assert_eq!(
        plan_session(&config(), &map(&[("rack", "r")])).err(),
        Some(PlanError::RackWithoutDatacenter)
    );
    assert_eq!(
        plan_session(&config(), &map(&[("contact_points", " , ")])).err(),
        Some(PlanError::EmptyContactPoints)
    );
    assert_eq!(
        PlanError::RackWithoutDatacenter.message(),
        "rack parameter requires datacenter to be specified"
    );
    assert_eq!(parse_contact_points("a,,b").unwrap(), ["a", "b"]);
    assert_eq!(parse_consistency("LOCAL_QUORUM"), Some(Consistency::LocalQuorum));
    assert_eq!(parse_consistency("nothing"), None);
    assert_eq!(parse_serial_consistency("LOCAL_SERIAL"), Some(SerialConsistency::LocalSerial));
}

#[test]
fn parameters_of_a_builder() {
    let params = DriverSessionBuilder::new()
        .known_node("a:1".to_string())
        .known_nodes(vec!["b:2".to_string()])
        .use_keyspace("ks".to_string(), false)
        .user("u".to_string(), "p".to_string())
        .with_param("x".to_string(), "y".to_string())
        .into_params();
    assert_eq!(params.get("contact_points"), Some(&"a:1,b:2".to_string()));
    assert_eq!(params.get("keyspace"), Some(&"ks".to_string()));
    assert_eq!(params.get("username"), Some(&"u".to_string()));
    assert_eq!(params.get("x"), Some(&"y".to_string()));
}

/// What is said of a text that a column cannot hold.
fn said(text: &str, native: NativeType) -> String {
    let values = [CqlValue::Int(1), CqlValue::Text(text.to_string())];
    let body = encode_execute_body(1, "key", Consistency::One, &values).expect("short values");
    let parsed = parse_execute_frame(&request(Opcode::Execute, 5, &body)).expect("it is read");
    let types = vec![ColumnType::Native(NativeType::Int), ColumnType::Native(native)];
    let mut cache = PreparedCache::new();
    cache.insert("key".to_string(), CachedPrepared { statement: 1, bind_types: Arc::new(types) });
    match cache.bind_execute(&parsed, &vec![]) {
        Err(e) => match unbound(e) {
            Done::Failed(text) => text,
            _ => panic!("it failed otherwise"),
        },
        Ok(bound) => panic!("{:?}", bound),
    }
}

#[test]
fn texts_are_quoted_where_they_are_refused() {
    let reason = rust_decimal::Decimal::from_str_exact("x").unwrap_err();
    assert_eq!(said("x", NativeType::Decimal), format!("invalid decimal string 'x': {}", reason));
    let reason = chrono::NaiveDate::parse_from_str("x", "%Y-%m-%d").unwrap_err();
    assert_eq!(said("x", NativeType::Date), format!("invalid date string 'x': {}", reason));
    let reason = chrono::NaiveTime::parse_from_str("x", "%-H:%-M:%-S").unwrap_err();
    assert_eq!(said("x", NativeType::Time), format!("invalid time string 'x': {}", reason));
    let reason = uuid::Uuid::parse_str("x").unwrap_err();
    assert_eq!(said("x", NativeType::Timeuuid), format!("invalid timeuuid string 'x': {}", reason));
    assert_eq!(
        said("x", NativeType::Inet),
        "invalid inet string 'x': invalid IP address syntax"
    );
    assert_eq!(
        said("1-2d", NativeType::Duration),
        "invalid duration number: 1-2"
    );
    assert_eq!(said("3q", NativeType::Duration), "invalid duration unit: q");
}
