//! Attribute values, errors and compression as scripts see them.

use latte_ipc::ipc::attribute::{get_attribute, AttributeValue};
use latte_ipc::scripting::dynamodb::compression::RequestCompressionConfig;
use latte_ipc::scripting::dynamodb::config::{DynamoDbCompression, RequestCompressionConf};
use latte_ipc::scripting::dynamodb::context::DynamoContext;
use latte_ipc::scripting::dynamodb::error::{DynamoError, DynamoErrorKind};
use latte_ipc::scripting::dynamodb::types::{
    attribute_value_to_rune, make_b, make_bool, make_list, make_map, make_n_f64, make_n_i64,
    make_ns, make_null, make_s, make_ss, ScriptValue,
};

#[test]
fn test_compression_disabled_by_default() {
    let config = RequestCompressionConfig::default();
    assert!(!config.is_enabled());
    assert!(!config.should_compress(2048));
}

#[test]
fn test_compression_min_size() {
    let config = RequestCompressionConfig::new(DynamoDbCompression::Gzip, 1024);
    assert!(config.is_enabled());
    assert!(!config.should_compress(512));
    assert!(config.should_compress(1024));
    assert!(config.should_compress(2048));
}

#[test]
fn test_gzip_compression() {
    let config = RequestCompressionConfig::new(DynamoDbCompression::Gzip, 100);

    // Create some compressible data (repeated pattern)
    let data = "Hello, World! ".repeat(100);
    let data_bytes = data.as_bytes();

    let result = config.compress(data_bytes);
    assert!(result.is_some());

    let compressed = result.unwrap();
    assert_eq!(compressed.encoding, "gzip");
    assert!(compressed.data.len() < data_bytes.len());
}

#[test]
fn test_no_compression_for_small_data() {
    let config = RequestCompressionConfig::new(DynamoDbCompression::Gzip, 1024);

    let data = b"small data";
    let result = config.compress(data);
    assert!(result.is_none());
}

#[test]
fn test_content_encoding() {
    assert_eq!(
        RequestCompressionConfig::new(DynamoDbCompression::Off, 0).content_encoding(),
        None
    );
    assert_eq!(
        RequestCompressionConfig::new(DynamoDbCompression::Gzip, 0).content_encoding(),
        Some("gzip")
    );
}

#[test]
fn test_from_request_compression_conf() {
    let conf = RequestCompressionConf {
        algorithm: DynamoDbCompression::Gzip,
        min_size: 512,
    };
    let config = RequestCompressionConfig::from(conf);
    assert!(config.is_enabled());
    assert_eq!(config.algorithm(), DynamoDbCompression::Gzip);
    assert_eq!(config.min_size(), 512);
}

#[test]
fn test_error_kind_display() {
    assert_eq!(
        DynamoErrorKind::ValidationError.to_string(),
        "ValidationError"
    );
    assert_eq!(DynamoErrorKind::AccessDenied.to_string(), "AccessDenied");
    assert_eq!(
        DynamoErrorKind::ResourceNotFound.to_string(),
        "ResourceNotFound"
    );
    assert_eq!(
        DynamoErrorKind::ConditionalCheckFailed.to_string(),
        "ConditionalCheckFailed"
    );
    assert_eq!(
        DynamoErrorKind::ProvisionedThroughputExceeded.to_string(),
        "ProvisionedThroughputExceeded"
    );
    assert_eq!(
        DynamoErrorKind::AlternatorUnsupported.to_string(),
        "AlternatorUnsupported"
    );
}

#[test]
fn test_error_new() {
    let err = DynamoError::new(DynamoErrorKind::ValidationError, "test message".to_string());
    assert_eq!(err.kind, DynamoErrorKind::ValidationError);
    assert_eq!(err.message, "test message");
}

#[test]
fn test_validation_error() {
    let err = DynamoError::validation_error("invalid input".to_string());
    assert_eq!(err.kind, DynamoErrorKind::ValidationError);
    assert!(err.message.contains("invalid input"));
}

#[test]
fn test_resource_not_found() {
    let err = DynamoError::resource_not_found("table does not exist".to_string());
    assert_eq!(err.kind, DynamoErrorKind::ResourceNotFound);
    assert!(err.message.contains("table does not exist"));
}

#[test]
fn test_conditional_check_failed() {
    let err = DynamoError::conditional_check_failed("condition not met".to_string());
    assert_eq!(err.kind, DynamoErrorKind::ConditionalCheckFailed);
    assert!(err.message.contains("condition not met"));
}

#[test]
fn test_is_conditional_check_failed() {
    let err_cond = DynamoError::conditional_check_failed("test".to_string());
    let err_other = DynamoError::validation_error("test".to_string());

    assert!(err_cond.is_conditional_check_failed());
    assert!(!err_other.is_conditional_check_failed());
}

#[test]
fn test_is_retryable() {
    let retryable_errors = vec![
        DynamoError::new(DynamoErrorKind::ProvisionedThroughputExceeded, "test".to_string()),
        DynamoError::new(DynamoErrorKind::RequestLimitExceeded, "test".to_string()),
        DynamoError::new(DynamoErrorKind::InternalServerError, "test".to_string()),
        DynamoError::new(DynamoErrorKind::ServiceUnavailable, "test".to_string()),
        DynamoError::new(DynamoErrorKind::Timeout, "test".to_string()),
    ];

    for err in retryable_errors {
        assert!(
            err.is_retryable(),
            "Expected {:?} to be retryable",
            err.kind
        );
    }

    let non_retryable_errors = vec![
        DynamoError::new(DynamoErrorKind::ValidationError, "test".to_string()),
        DynamoError::new(DynamoErrorKind::AccessDenied, "test".to_string()),
        DynamoError::new(DynamoErrorKind::ResourceNotFound, "test".to_string()),
        DynamoError::new(DynamoErrorKind::ConditionalCheckFailed, "test".to_string()),
    ];

    for err in non_retryable_errors {
        assert!(
            !err.is_retryable(),
            "Expected {:?} to not be retryable",
            err.kind
        );
    }
}

#[test]
fn error_test_prepared_operation_not_found() {
    let err = DynamoError::prepared_operation_not_found("my_query");
    assert_eq!(err.kind, DynamoErrorKind::PreparedOperationNotFound);
    assert!(err.message.contains("my_query"));
}

#[test]
fn error_test_client_not_found() {
    let err = DynamoError::client_not_found("my_client");
    assert_eq!(err.kind, DynamoErrorKind::ClientNotFound);
    assert!(err.message.contains("my_client"));
}

#[test]
fn test_invalid_parameter() {
    let err = DynamoError::invalid_parameter("bad param".to_string());
    assert_eq!(err.kind, DynamoErrorKind::InvalidParameter);
    assert!(err.message.contains("bad param"));
}

#[test]
fn test_alternator_unsupported() {
    let err = DynamoError::alternator_unsupported("transact_write_items");
    assert_eq!(err.kind, DynamoErrorKind::AlternatorUnsupported);
    assert!(err.message.contains("transact_write_items"));
    assert!(err.message.contains("Alternator"));
}

#[test]
fn test_connection_error() {
    let err = DynamoError::connection_error("connection refused".to_string());
    assert_eq!(err.kind, DynamoErrorKind::ConnectionError);
    assert!(err.message.contains("connection refused"));
}

#[test]
fn test_from_sdk_error_categorization() {
    // SDK errors are categorized based on message content
    let test_cases = vec![
        (
            "ResourceNotFoundException: Table not found",
            DynamoErrorKind::ResourceNotFound,
        ),
        (
            "ResourceInUseException: Table is being created",
            DynamoErrorKind::ResourceInUse,
        ),
        (
            "ValidationException: Invalid key",
            DynamoErrorKind::ValidationError,
        ),
        (
            "ConditionalCheckFailedException: Condition failed",
            DynamoErrorKind::ConditionalCheckFailed,
        ),
        (
            "ProvisionedThroughputExceededException: Rate exceeded",
            DynamoErrorKind::ProvisionedThroughputExceeded,
        ),
        (
            "RequestLimitExceeded: Too many requests",
            DynamoErrorKind::RequestLimitExceeded,
        ),
        (
            "TransactionConflictException: Conflict",
            DynamoErrorKind::TransactionConflict,
        ),
        (
            "TransactionCanceledException: Canceled",
            DynamoErrorKind::TransactionCanceled,
        ),
        (
            "AccessDeniedException: No access",
            DynamoErrorKind::AccessDenied,
        ),
        (
            "InternalServerError: Server error",
            DynamoErrorKind::InternalServerError,
        ),
        (
            "ServiceUnavailable: Service down",
            DynamoErrorKind::ServiceUnavailable,
        ),
        ("timeout occurred", DynamoErrorKind::Timeout),
        ("Timeout while connecting", DynamoErrorKind::Timeout),
        ("connection refused", DynamoErrorKind::ConnectionError),
        ("Connection reset", DynamoErrorKind::ConnectionError),
        ("Some unknown error", DynamoErrorKind::Other),
    ];

    for (msg, expected_kind) in test_cases {
        let debug = format!("{:?}", msg);
        let err = DynamoError::from_sdk_error(msg.to_string(), &debug);
        assert_eq!(
            err.kind, expected_kind,
            "Message '{}' should produce {:?} but got {:?}",
            msg, expected_kind, err.kind
        );
    }
}

#[test]
fn test_error_display() {
    let err = DynamoError::new(DynamoErrorKind::ValidationError, "test message".to_string());
    let display = err.to_string();
    assert!(display.contains("ValidationError"));
    assert!(display.contains("test message"));
    assert_eq!(display, "DynamoError(ValidationError: test message)");
}

#[test]
fn test_attribute_value_string_to_rune() {
    let attr = AttributeValue::S("hello".to_string());
    let result = attribute_value_to_rune(&attr).unwrap();
    if let ScriptValue::Text(s) = result {
        assert_eq!(s.as_str(), "hello");
    } else {
        panic!("Expected ScriptValue::Text");
    }
}

#[test]
fn test_attribute_value_number_int_to_rune() {
    let attr = AttributeValue::N("42".to_string());
    let result = attribute_value_to_rune(&attr).unwrap();
    if let ScriptValue::Integer(i) = result {
        assert_eq!(i, 42);
    } else {
        panic!("Expected ScriptValue::Integer, got {:?}", result);
    }
}

#[test]
fn test_attribute_value_number_float_to_rune() {
    let attr = AttributeValue::N("3.125".to_string());
    let result = attribute_value_to_rune(&attr).unwrap();
    if let ScriptValue::Float(t) = result {
        let f: f64 = t.parse().unwrap();
        assert!((f - 3.125).abs() < 0.001);
    } else {
        panic!("Expected ScriptValue::Float, got {:?}", result);
    }
}

#[test]
fn test_attribute_value_bool_to_rune() {
    let attr_true = AttributeValue::Bool(true);
    let attr_false = AttributeValue::Bool(false);

    if let ScriptValue::Bool(b) = attribute_value_to_rune(&attr_true).unwrap() {
        assert!(b);
    } else {
        panic!("Expected ScriptValue::Bool(true)");
    }

    if let ScriptValue::Bool(b) = attribute_value_to_rune(&attr_false).unwrap() {
        assert!(!b);
    } else {
        panic!("Expected ScriptValue::Bool(false)");
    }
}

#[test]
fn test_attribute_value_null_to_rune() {
    let attr = AttributeValue::Null(true);
    let result = attribute_value_to_rune(&attr).unwrap();
    assert!(
        matches!(result, ScriptValue::Nothing),
        "Expected ScriptValue::Nothing"
    );
}

#[test]
fn test_attribute_value_binary_to_rune() {
    let data = vec![1u8, 2, 3, 4, 5];
    let attr = AttributeValue::B(data.clone());
    let result = attribute_value_to_rune(&attr).unwrap();
    if let ScriptValue::Bytes(b) = result {
        assert_eq!(b.as_slice(), &data[..]);
    } else {
        panic!("Expected ScriptValue::Bytes");
    }
}

#[test]
fn test_attribute_value_list_to_rune() {
    let attr = AttributeValue::L(vec![
        AttributeValue::S("a".to_string()),
        AttributeValue::N("1".to_string()),
    ]);
    let result = attribute_value_to_rune(&attr).unwrap();
    if let ScriptValue::List(vec) = result {
        assert_eq!(vec.len(), 2);
    } else {
        panic!("Expected ScriptValue::List");
    }
}

#[test]
fn test_attribute_value_string_set_to_rune() {
    let attr = AttributeValue::Ss(vec!["a".to_string(), "b".to_string(), "c".to_string()]);
    let result = attribute_value_to_rune(&attr).unwrap();
    if let ScriptValue::List(vec) = result {
        assert_eq!(vec.len(), 3);
    } else {
        panic!("Expected ScriptValue::List");
    }
}

#[test]
fn test_attribute_value_number_set_to_rune() {
    let attr = AttributeValue::Ns(vec!["1".to_string(), "2".to_string(), "3".to_string()]);
    let result = attribute_value_to_rune(&attr).unwrap();
    if let ScriptValue::List(vec) = result {
        assert_eq!(vec.len(), 3);
    } else {
        panic!("Expected ScriptValue::List");
    }
}

#[test]
fn test_attribute_value_map_to_rune() {
    let attr = AttributeValue::M(vec![
        ("key1".to_string(), AttributeValue::S("value1".to_string())),
        ("key2".to_string(), AttributeValue::N("42".to_string())),
    ]);

    let result = attribute_value_to_rune(&attr).unwrap();
    if let ScriptValue::Object(obj) = result {
        assert_eq!(obj.len(), 2);
    } else {
        panic!("Expected ScriptValue::Object");
    }
}

#[test]
fn test_make_s() {
    let dv = make_s("test");
    if let AttributeValue::S(s) = dv.into_inner() {
        assert_eq!(s, "test");
    } else {
        panic!("Expected AttributeValue::S");
    }
}

#[test]
fn test_make_n_i64() {
    let dv = make_n_i64(42);
    if let AttributeValue::N(n) = dv.into_inner() {
        assert_eq!(n, "42");
    } else {
        panic!("Expected AttributeValue::N");
    }
}

#[test]
fn test_make_n_f64() {
    let dv = make_n_f64(3.125f64.to_string());
    if let AttributeValue::N(n) = dv.into_inner() {
        assert_eq!(n, "3.125");
    } else {
        panic!("Expected AttributeValue::N");
    }
}

#[test]
fn test_make_bool() {
    let dv_true = make_bool(true);
    let dv_false = make_bool(false);

    if let AttributeValue::Bool(b) = dv_true.into_inner() {
        assert!(b);
    } else {
        panic!("Expected AttributeValue::Bool(true)");
    }

    if let AttributeValue::Bool(b) = dv_false.into_inner() {
        assert!(!b);
    } else {
        panic!("Expected AttributeValue::Bool(false)");
    }
}

#[test]
fn test_make_null() {
    let dv = make_null();
    if let AttributeValue::Null(n) = dv.into_inner() {
        assert!(n);
    } else {
        panic!("Expected AttributeValue::Null");
    }
}

#[test]
fn test_make_b() {
    let data = vec![1u8, 2, 3];
    let dv = make_b(&data);
    if let AttributeValue::B(b) = dv.into_inner() {
        assert_eq!(b.as_slice(), &data[..]);
    } else {
        panic!("Expected AttributeValue::B");
    }
}

#[test]
fn test_make_ss() {
    let strings = vec!["a".to_string(), "b".to_string()];
    let dv = make_ss(strings.clone());
    if let AttributeValue::Ss(ss) = dv.into_inner() {
        assert_eq!(ss, strings);
    } else {
        panic!("Expected AttributeValue::Ss");
    }
}

#[test]
fn test_make_ns() {
    let numbers = vec!["1".to_string(), "2".to_string()];
    let dv = make_ns(numbers.clone());
    if let AttributeValue::Ns(ns) = dv.into_inner() {
        assert_eq!(ns, numbers);
    } else {
        panic!("Expected AttributeValue::Ns");
    }
}

#[test]
fn test_make_list() {
    let items = vec![
        AttributeValue::S("a".to_string()),
        AttributeValue::N("1".to_string()),
    ];
    let dv = make_list(items);
    if let AttributeValue::L(l) = dv.into_inner() {
        assert_eq!(l.len(), 2);
    } else {
        panic!("Expected AttributeValue::L");
    }
}

#[test]
fn test_make_map() {
    let items = vec![("key".to_string(), AttributeValue::S("value".to_string()))];
    let dv = make_map(items);
    if let AttributeValue::M(m) = dv.into_inner() {
        assert_eq!(m.len(), 1);
        assert!(get_attribute(&m, "key").is_some());
    } else {
        panic!("Expected AttributeValue::M");
    }
}

#[test]
fn context_test_prepared_operation_not_found() {
    let ctx: DynamoContext<u32> = DynamoContext::new(0, None);
    let values = vec![ScriptValue::Text("test".to_string())];
    let result = ctx.execute_prepared("nonexistent", &values);
    assert!(result.is_err());
    let err = result.unwrap_err();
    assert!(err.message.contains("not found"));
}

#[test]
fn test_prepared_operation_wrong_value_count() {
    let mut ctx: DynamoContext<u32> = DynamoContext::new(0, None);

    // Prepare expects 2 values
    ctx.prepare_put_item(
        "insert",
        "prep_wrong",
        vec!["pk".to_string(), "data".to_string()],
    );

    // Only provide 1 value
    let values = vec![ScriptValue::Text("key".to_string())];
    let result = ctx.execute_prepared("insert", &values);
    assert!(result.is_err());
    let err = result.unwrap_err();
    assert!(err.message.contains("Expected 2 values but got 1"));
}

#[test]
fn context_test_client_not_found() {
    let ctx: DynamoContext<u32> = DynamoContext::new(0, None);
    let result = ctx.client_named("nonexistent");
    match result {
        Err(err) => assert!(err.message.contains("not found")),
        Ok(_) => panic!("Expected error for nonexistent client"),
    }
}
