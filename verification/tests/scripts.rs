//! What scripts hand to DynamoDB operations, and what they get back.

use latte_ipc::ipc::alternator_client::{BatchGetRequestItems, BatchWriteRequest};
use latte_ipc::ipc::attribute::{get_attribute, AttributeValue};
use latte_ipc::scripting::dynamodb::batch::{
    after_batch_get, after_batch_write, merge_responses, plan_gets, plan_writes, split_into_chunks,
    BatchNext,
};
use latte_ipc::scripting::dynamodb::client::{
    credentials, get_opt_bool, get_opt_i64, get_opt_string, new_throughput, rune_conf,
    wait_table_active, DynamoClient, MissingCapacity, SessionConfig, TableDescription,
    TableStatus, TableWait, INITIAL_DELAY_MS,
};
use latte_ipc::scripting::dynamodb::compression::keep_if_smaller;
use latte_ipc::scripting::dynamodb::config::DynamoDbCompression;
use latte_ipc::scripting::dynamodb::context::{
    adapter_container, driver_latency, fill_template, session_params, DynamoContext, Operation,
    OperationType, PreparedOperation,
};
use latte_ipc::scripting::dynamodb::error::DynamoErrorKind;
use latte_ipc::scripting::dynamodb::operations::{
    attribute_def, delete_request, dynamo_bs, dynamo_l, dynamo_m, dynamo_ns, dynamo_ss,
    dynamo_transact_condition_check, dynamo_transact_delete, dynamo_transact_get,
    dynamo_transact_put, dynamo_transact_update, gsi, key_schema, keys_and_attributes, lsi,
    put_request, throughput, KeyType, ProjectionType, ScalarAttributeType, SetError,
    TransactWriteItem,
};
use latte_ipc::scripting::dynamodb::options::{
    adapter_number, batch_gets, batch_result, batch_writes, client_number, item_to_object,
    object_to_item, object_to_string_map, read_options, read_result,
};
use latte_ipc::scripting::dynamodb::types::{
    attribute_value_to_rune, rune_to_attribute_value, ScriptValue,
};
use latte_ipc::text_map::TextMap;

fn text(t: &str) -> ScriptValue {
    ScriptValue::Text(t.to_string())
}

fn object(fields: Vec<(&str, ScriptValue)>) -> Vec<(String, ScriptValue)> {
    fields.into_iter().map(|(k, v)| (k.to_string(), v)).collect()
}

fn key(t: &str) -> Vec<(String, AttributeValue)> {
    vec![("id".to_string(), AttributeValue::S(t.to_string()))]
}

#[test]
fn values_of_scripts_come_back() {
    for v in [
        ScriptValue::Bool(true),
        ScriptValue::Integer(-5),
        text("t"),
        ScriptValue::Bytes(vec![1, 2]),
        ScriptValue::List(vec![ScriptValue::Integer(1), text("x")]),
        ScriptValue::Object(object(vec![("k", ScriptValue::Bool(false))])),
    ] {
        let attribute = rune_to_attribute_value(&v).expect("it has an attribute");
        let back = attribute_value_to_rune(&attribute).expect("it comes back");
        assert_eq!(format!("{:?}", back), format!("{:?}", v));
    }
    let e = rune_to_attribute_value(&ScriptValue::Other).unwrap_err();
    assert_eq!(e.kind, DynamoErrorKind::InvalidParameter);
    assert_eq!(e.message, "Unsupported type for conversion to AttributeValue");
    let e = attribute_value_to_rune(&AttributeValue::N("x".to_string())).unwrap_err();
    assert_eq!(e.message, "Failed to parse number: x");
}

#[test]
fn objects_become_items() {
    let item = object_to_item(&object(vec![("a", text("x")), ("b", ScriptValue::Integer(2))]))
        .expect("all fields have attributes");
    assert!(matches!(get_attribute(&item, "b"), Some(AttributeValue::N(n)) if n == "2"));
    let e = object_to_item(&object(vec![("bad", ScriptValue::Other)])).unwrap_err();
    assert!(e.message.starts_with("Failed to convert 'bad': "), "{}", e.message);
    let names = object_to_string_map(&object(vec![("#n", text("name"))])).unwrap();
    assert_eq!(names.get("#n"), Some(&"name".to_string()));
    let e = object_to_string_map(&object(vec![("#n", ScriptValue::Integer(1))])).unwrap_err();
    assert_eq!(e.message, "Expected string value for key '#n'");
    let back = item_to_object(&item).unwrap();
    assert_eq!(back.len(), 2);
    assert!(matches!(read_result(&None), Ok(None)));
    assert!(matches!(read_result(&Some(item)), Ok(Some(o)) if o.len() == 2));
}

#[test]
fn options_are_read() {
    let options = object(vec![
        ("limit", ScriptValue::Integer(5)),
        ("consistent_read", ScriptValue::Bool(true)),
        ("scan_index_forward", ScriptValue::Bool(false)),
        ("index_name", text("idx")),
        (
            "expression_attribute_values",
            ScriptValue::Object(object(vec![(":v", ScriptValue::Integer(1))])),
        ),
    ]);
    let read = read_options(Some(&options), true).expect("the options are right");
    assert_eq!(read.limit, Some(5));
    assert!(read.reads_consistently());
    assert!(!read.runs_forward());
    assert_eq!(read.index_name.as_deref(), Some("idx"));
    assert_eq!(read.values.map(|v| v.len()), Some(1));
    let none = read_options(None, true).expect("there are none");
    assert!(!none.reads_consistently());
    assert!(none.runs_forward());
    assert_eq!(none.limit, None);
    assert_eq!(adapter_number(Some(-1)), Some(u32::MAX));
    assert_eq!(client_number(Some(-1)), Some(-1));
    assert_eq!(client_number(None), None);
}

#[test]
fn batches_are_read() {
    let put = ScriptValue::Object(object(vec![(
        "put",
        ScriptValue::Object(object(vec![("id", text("1"))])),
    )]));
    let delete = ScriptValue::Object(object(vec![(
        "delete",
        ScriptValue::Object(object(vec![("id", text("2"))])),
    )]));
    let request = object(vec![("t", ScriptValue::List(vec![put, delete]))]);
    let writes = batch_writes(&request).expect("the writes are right");
    assert_eq!(writes.len(), 1);
    assert!(matches!(&writes[0].1[0], BatchWriteRequest::Put(_)));
    assert!(matches!(&writes[0].1[1], BatchWriteRequest::Delete(_)));
    let request = object(vec![(
        "t",
        ScriptValue::List(vec![ScriptValue::Object(object(vec![("id", text("1"))]))]),
    )]);
    let gets = batch_gets(&request).expect("the keys are right");
    assert_eq!(gets[0].1.keys.len(), 1);
    assert!(!gets[0].1.consistent_read);
    let shown = batch_result(&vec![("t".to_string(), vec![key("1")])]).unwrap();
    assert_eq!(shown.len(), 1);
}

#[test]
fn large_batches_are_split() {
    let writes: Vec<BatchWriteRequest> =
        (0..60).map(|n| BatchWriteRequest::Put(key(&n.to_string()))).collect();
    let chunks = plan_writes(vec![("t".to_string(), writes)]);
    let sizes: Vec<usize> = chunks.iter().map(|c| c.iter().map(|t| t.1.len()).sum()).collect();
    assert_eq!(sizes, [25, 25, 10]);
    let gets = BatchGetRequestItems {
        keys: (0..150).map(|n| key(&n.to_string())).collect(),
        consistent_read: true,
        projection_expression: Some("id".to_string()),
        expression_attribute_names: None,
    };
    let chunks = plan_gets(vec![("t".to_string(), gets)]);
    let sizes: Vec<usize> = chunks.iter().map(|c| c[0].1.keys.len()).collect();
    assert_eq!(sizes, [100, 50]);
    assert_eq!(chunks[1][0].1.projection_expression.as_deref(), Some("id"));
    let chunks = split_into_chunks(vec![("a".to_string(), vec![1, 2]), ("b".to_string(), vec![3])], 2);
    assert_eq!(chunks.len(), 2);
    assert_eq!(chunks[0], vec![("a".to_string(), vec![1, 2])]);
    assert_eq!(chunks[1], vec![("b".to_string(), vec![3])]);
}

#[test]
fn batches_are_repeated() {
    let left = vec![("t".to_string(), vec![BatchWriteRequest::Put(key("1"))])];
    assert!(matches!(after_batch_write(&vec![], 0, 3), BatchNext::Done));
    assert!(matches!(after_batch_write(&left, 0, 3), BatchNext::RetryAfter(50)));
    assert!(matches!(after_batch_write(&left, 2, 3), BatchNext::RetryAfter(200)));
    match after_batch_write(&left, 3, 3) {
        BatchNext::GiveUp(e) => {
            assert_eq!(e.kind, DynamoErrorKind::RequestLimitExceeded);
            assert_eq!(e.message, "Batch write failed: 1 unprocessed items after 3 retries");
        }
        other => panic!("{:?}", other),
    }
    assert!(matches!(after_batch_get(0, 5, 3), BatchNext::Done));
    assert!(matches!(after_batch_get(2, 1, 3), BatchNext::RetryAfter(100)));
    assert!(matches!(
        after_batch_get(2, 3, 3),
        BatchNext::GiveUp(e)
            if e.message == "Batch get failed: 2 tables with unprocessed keys after 3 retries"
    ));
    let mut all: TextMap<Vec<u8>> = TextMap::new();
    merge_responses(&mut all, vec![("t".to_string(), vec![1])]);
    merge_responses(&mut all, vec![("t".to_string(), vec![2]), ("u".to_string(), vec![3])]);
    assert_eq!(all.get("t"), Some(&vec![1, 2]));
    assert_eq!(all.get("u"), Some(&vec![3]));
    merge_responses(&mut all, vec![("v".to_string(), vec![])]);
    assert_eq!(all.get("v"), Some(&vec![]));
    assert_eq!(all.len(), 3);
}

#[test]
fn tables_of_split_reads_differ() {
    let gets = |n: usize| keys_and_attributes((0..n).map(|_| key("1")).collect());
    let chunks = plan_gets(vec![("t".to_string(), gets(60)), ("u".to_string(), gets(60))]);
    let tables = |i: usize| -> Vec<(&str, usize)> {
        chunks[i].iter().map(|g| (g.0.as_str(), g.1.keys.len())).collect()
    };
    assert_eq!(chunks.len(), 2);
    assert_eq!(tables(0), [("t", 60), ("u", 40)]);
    assert_eq!(tables(1), [("u", 20)]);
}

#[test]
fn clients_are_configured() {
    let conf = rune_conf(&object(vec![
        ("endpoint", text("http://localhost:8000")),
        ("access_key_id", text("id")),
        ("secret_access_key", text("key")),
        ("max_retries", ScriptValue::Integer(7)),
        ("request_compression", text("gzip")),
    ]));
    assert_eq!(conf.endpoint.as_deref(), Some("http://localhost:8000"));
    assert_eq!(conf.region, "us-east-1");
    assert_eq!(conf.max_retries, 7);
    assert_eq!(conf.compression.request.algorithm, DynamoDbCompression::Gzip);
    assert_eq!(credentials(&conf), Some(("id".to_string(), "key".to_string())));
    let params = session_params(&conf);
    assert_eq!(params.get("max_retries"), Some(&"7".to_string()));
    assert_eq!(params.get("request_timeout_ms"), Some(&"30000".to_string()));
    let client = DynamoClient::from_config(&conf);
    assert!(client.is_alternator());
    assert!(client.is_request_compression_enabled());
    let e = client.check_transaction("TransactGetItems").unwrap_err();
    assert_eq!(e.kind, DynamoErrorKind::AlternatorUnsupported);
    let plain = SessionConfig::new().region("eu-west-1").max_connections(5).to_dynamo_conf();
    assert_eq!(plain.region, "eu-west-1");
    assert_eq!(plain.max_connections, 5);
    assert_eq!(credentials(&plain), None);
    let client = DynamoClient::from_config(&plain);
    assert!(!client.is_alternator());
    assert!(client.check_transaction("TransactGetItems").is_ok());
}

#[test]
fn fields_are_looked_up() {
    let o = object(vec![("t", text("x")), ("n", ScriptValue::Integer(3)), ("b", ScriptValue::Bool(true))]);
    assert_eq!(get_opt_string(&o, "t"), Some("x".to_string()));
    assert_eq!(get_opt_string(&o, "n"), None);
    assert_eq!(get_opt_i64(&o, "n"), Some(3));
    assert_eq!(get_opt_bool(&o, "b"), Some(true));
    assert_eq!(get_opt_bool(&o, "none"), None);
}

#[test]
fn tables_are_waited_for() {
    let description = |status: TableStatus| TableDescription {
        table_name: None,
        table_status: Some(status),
        item_count: None,
        table_size_bytes: None,
    };
    assert!(matches!(
        wait_table_active("t", Some(&description(TableStatus::Active)), 50),
        TableWait::Active
    ));
    assert!(matches!(
        wait_table_active("t", Some(&description(TableStatus::Other)), 50),
        TableWait::Wait(50, 100)
    ));
    assert!(matches!(
        wait_table_active("t", Some(&description(TableStatus::Other)), 400),
        TableWait::Wait(400, 500)
    ));
    let mut waits = vec![];
    let mut delay = INITIAL_DELAY_MS;
    for _ in 0..5 {
        match wait_table_active("t", Some(&description(TableStatus::Other)), delay) {
            TableWait::Wait(now, next) => {
                waits.push(now);
                delay = next;
            }
            other => panic!("{:?}", other),
        }
    }
    assert_eq!(waits, [50, 100, 200, 500, 500]);
    assert!(matches!(
        wait_table_active("t", None, 50),
        TableWait::Missing(e) if e.message == "Table not found: t"
    ));
    assert_eq!(new_throughput(None, None), Ok(None));
    assert_eq!(new_throughput(Some(1), Some(2)), Ok(Some(throughput(1, 2))));
    assert_eq!(new_throughput(None, Some(2)), Err(MissingCapacity::Read));
    assert_eq!(new_throughput(Some(1), None), Err(MissingCapacity::Write));
}

#[test]
fn compression_must_pay() {
    assert!(keep_if_smaller(3, Some(vec![1, 2, 3])).is_none());
    assert_eq!(keep_if_smaller(4, Some(vec![1, 2, 3])).map(|c| c.data), Some(vec![1, 2, 3]));
    assert!(keep_if_smaller(4, None).is_none());
}

#[test]
fn schemas_are_read() {
    assert_eq!(key_schema("id", "hash").unwrap().key_type, KeyType::Hash);
    assert_eq!(key_schema("id", "Range").unwrap().key_type, KeyType::Range);
    assert_eq!(
        key_schema("id", "x").unwrap_err().message,
        "Invalid key type: x. Must be HASH or RANGE"
    );
    assert_eq!(attribute_def("id", "n").unwrap().attribute_type, ScalarAttributeType::N);
    assert_eq!(
        attribute_def("id", "x").unwrap_err().message,
        "Invalid attribute type: x. Must be S, N, or B"
    );
    let index = gsi("g")
        .key_schema(key_schema("id", "HASH").unwrap())
        .projection_type("include")
        .unwrap()
        .non_key_attributes(vec!["a".to_string()])
        .provisioned_throughput(throughput(1, 2))
        .build();
    assert_eq!(index.projection_type, ProjectionType::Include);
    assert_eq!(index.key_schema.len(), 1);
    assert!(lsi("l").projection_type("bad").is_err());
    assert_eq!(lsi("l").build().index_name, "l");
}

#[test]
fn sets_hold_one_type() {
    assert_eq!(dynamo_ss(&vec![ScriptValue::Integer(1)]).err(), Some(SetError::Strings));
    assert_eq!(dynamo_ns(&vec![text("x")]).err(), Some(SetError::Numbers));
    assert_eq!(dynamo_bs(&vec![text("x")]).err(), Some(SetError::Bytes));
    assert_eq!(SetError::Numbers.message(), "NS requires numeric values");
    let set = dynamo_ss(&vec![text("a")]).unwrap();
    assert!(matches!(set.into_inner(), AttributeValue::Ss(s) if s == ["a"]));
}

#[test]
fn transactions_are_built() {
    let put = dynamo_transact_put("t", &object(vec![("id", text("1"))])).unwrap();
    assert!(matches!(put, TransactWriteItem::Put { table_name, .. } if table_name == "t"));
    let values = object(vec![(":v", ScriptValue::Integer(1))]);
    let update =
        dynamo_transact_update("t", &object(vec![("id", text("1"))]), "SET a = :v", Some(&values));
    assert!(matches!(
        update,
        Ok(TransactWriteItem::Update { expression_attribute_values: Some(v), .. }) if v.len() == 1
    ));
    let check = dynamo_transact_condition_check("t", &object(vec![]), "attribute_exists(id)", None);
    assert!(matches!(
        check,
        Ok(TransactWriteItem::ConditionCheck { expression_attribute_values: None, .. })
    ));
}

#[test]
fn arguments_that_cannot_be_converted() {
    let why = "DynamoError(InvalidParameter: Unsupported type for conversion to AttributeValue)";
    let value = Some(format!("Failed to convert value: {why}"));
    let key = Some(format!("Failed to convert key: {why}"));
    let expression = Some(format!("Failed to convert expression value: {why}"));
    let good = object(vec![("id", text("1"))]);
    let bad = object(vec![("id", ScriptValue::Other)]);
    assert_eq!(dynamo_l(&vec![ScriptValue::Other]).err(), value);
    assert_eq!(dynamo_m(&bad).err(), value);
    assert_eq!(dynamo_transact_put("t", &bad).err(), value);
    assert_eq!(dynamo_transact_delete("t", &bad).err(), key);
    assert_eq!(dynamo_transact_get("t", &bad).err(), key);
    assert_eq!(dynamo_transact_update("t", &bad, "SET a = :v", None).err(), key);
    assert_eq!(dynamo_transact_update("t", &bad, "SET a = :v", Some(&bad)).err(), key);
    assert_eq!(dynamo_transact_update("t", &good, "SET a = :v", Some(&bad)).err(), expression);
    assert_eq!(dynamo_transact_condition_check("t", &bad, "c", Some(&bad)).err(), key);
    assert_eq!(dynamo_transact_condition_check("t", &good, "c", Some(&bad)).err(), expression);
}

#[test]
fn operations_are_prepared() {
    let mut ctx = DynamoContext::new(1u8, None);
    assert!(!ctx.is_using_ipc());
    ctx.add_client("other", 2);
    assert_eq!(*ctx.client(), 1);
    assert_eq!(ctx.client_named("other").ok(), Some(&2));
    ctx.prepare_put_item("put", "t", vec!["id".to_string(), "v".to_string()]);
    ctx.prepare_query("q", "t", "id = :id", vec![":id".to_string()], None, Some(3));
    ctx.prepare_get_item("get", "t", vec!["id".to_string()], None);
    assert!(ctx.get_prepared("none").is_none());
    match ctx.execute_prepared("put", &vec![text("1"), ScriptValue::Integer(2)]) {
        Ok(Operation::Put { table_name, item }) => {
            assert_eq!(table_name, "t");
            assert!(matches!(get_attribute(&item, "v"), Some(AttributeValue::N(n)) if n == "2"));
        }
        other => panic!("{:?}", other),
    }
    assert!(matches!(
        ctx.execute_prepared("q", &vec![text("1")]),
        Ok(Operation::Query { limit: Some(3), .. })
    ));
    assert!(matches!(ctx.execute_prepared("get", &vec![text("1")]), Ok(Operation::Get { .. })));
    let scan = PreparedOperation {
        operation_type: OperationType::Scan,
        table_name: "t".to_string(),
        template_keys: vec![],
        key_condition_expression: None,
        projection_expression: None,
        limit: None,
    };
    assert_eq!(
        fill_template(&scan, &vec![]).unwrap_err().message,
        "Scan prepared operations not supported"
    );
    assert_eq!(driver_latency(-1), None);
    assert_eq!(driver_latency(5), Some(5));
    let container = adapter_container("image", "/tmp/a.sock", Some("http://x"));
    assert_eq!(container.socket_env_name, "LATTE_ALTERNATOR_SOCKET");
    assert_eq!(container.extra_envs.len(), 1);
}

#[test]
fn requests_of_a_batch() {
    match put_request(key("1")) {
        BatchWriteRequest::Put(item) => {
            assert!(matches!(get_attribute(&item, "id"), Some(AttributeValue::S(t)) if t == "1"))
        }
        other => panic!("{:?}", other),
    }
    match delete_request(key("2")) {
        BatchWriteRequest::Delete(item) => {
            assert!(matches!(get_attribute(&item, "id"), Some(AttributeValue::S(t)) if t == "2"))
        }
        other => panic!("{:?}", other),
    }
    let read = keys_and_attributes(vec![key("1"), key("2")]);
    assert_eq!(read.keys.len(), 2);
    assert!(!read.consistent_read);
    assert!(read.projection_expression.is_none());
    assert!(read.expression_attribute_names.is_none());
}

#[test]
fn context_of_another_thread() {
    let mut ctx = DynamoContext::new(1u8, None);
    ctx.add_client("other", 2);
    ctx.load_cycle_count = 7;
    ctx.prepare_put_item("put", "t", vec!["id".to_string()]);
    let projection = Some("id".to_string());
    ctx.prepare_query("q", "u", "id = :id", vec![":id".to_string()], projection, Some(3));
    let copy = ctx.clone_for_thread();
    assert_eq!(*copy.client(), 1);
    assert_eq!(copy.client_named("other").ok(), Some(&2));
    assert_eq!(copy.load_cycle_count, 7);
    assert!(!copy.is_using_ipc());
    assert_eq!(copy.prepared_operations.len(), 2);
    let put = copy.get_prepared("put").expect("a template");
    assert_eq!(put.operation_type, OperationType::PutItem);
    assert_eq!(put.template_keys, ["id"]);
    let query = copy.get_prepared("q").expect("a template");
    assert_eq!(query.table_name, "u");
    assert_eq!(query.key_condition_expression.as_deref(), Some("id = :id"));
    assert_eq!(query.projection_expression.as_deref(), Some("id"));
    assert_eq!(query.limit, Some(3));
    ctx.prepare_get_item("get", "t", vec!["id".to_string()], None);
    assert!(copy.get_prepared("get").is_none());
}

#[test]
fn texts_of_a_template() {
    let names = DynamoContext::<u8>::vec_to_string_vec(&vec![text("id"), text("v")]);
    assert_eq!(names, Ok(vec!["id".to_string(), "v".to_string()]));
    assert_eq!(DynamoContext::<u8>::vec_to_string_vec(&vec![]), Ok(vec![]));
    assert_eq!(
        DynamoContext::<u8>::vec_to_string_vec(&vec![text("id"), ScriptValue::Integer(1)]),
        Err("Expected string values in template".to_string())
    );
}
