use jet1090::error::{ErrorCode, ErrorResponse};

#[test]
fn test_error_response_serialization() {
    let err = ErrorResponse::new(
        ErrorCode::InvalidHexPayload,
        "Hex string contains invalid characters",
    );
    let json = err.to_json().unwrap();
    assert!(json.contains("INVALID_HEX_PAYLOAD"));
    assert!(json.contains("Hex string contains invalid characters"));
}

#[test]
fn test_error_response_with_context() {
    let mut context = serde_json::Map::new();
    context.insert("payload_length".to_string(), serde_json::Value::from(8));
    context.insert("expected_length".to_string(), serde_json::Value::from(7));
    let context = serde_json::Value::Object(context);
    let err = ErrorResponse::with_context(
        ErrorCode::InvalidPayloadLength,
        "Payload must be 7 bytes",
        context,
    );
    let json = err.to_json().unwrap();
    assert!(json.contains("INVALID_PAYLOAD_LENGTH"));
    assert!(json.contains("payload_length"));
}

#[test]
fn error_response_json_layout() {
    let err = ErrorResponse::new(ErrorCode::IoError, "a \"quoted\"\tline\n\u{1}");
    assert_eq!(
        err.to_json().unwrap(),
        r#"{"error":"a \"quoted\"\tline\n\u0001","code":"IO_ERROR"}"#
    );
    let err = ErrorResponse::with_context(
        ErrorCode::InvalidArgument,
        "bad",
        serde_json::Value::from(3),
    );
    assert_eq!(
        err.to_json().unwrap(),
        r#"{"error":"bad","code":"INVALID_ARGUMENT","context":3}"#
    );
}

#[test]
fn error_codes_display_in_screaming_snake_case() {
    assert_eq!(ErrorCode::InvalidBdsCode.to_string(), "INVALID_BDS_CODE");
    assert_eq!(ErrorCode::SerializationError.to_string(), "SERIALIZATION_ERROR");
    let err = ErrorResponse::new(ErrorCode::FileNotFound, "missing.txt");
    assert_eq!(err.to_string(), "FILE_NOT_FOUND: missing.txt");
}
