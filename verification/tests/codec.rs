//! Wire-format tests: envelope encoding, decoding, and JSON corner cases.

use lai_core::codec::{decode_request, decode_response, encode_request, encode_response, Request, Response};
use lai_core::json::{decode_json, encode_json, Json};

fn obj(pairs: Vec<(&str, Json)>) -> Json {
    Json::Obj(pairs.into_iter().map(|(k, v)| (k.to_string(), v)).collect())
}

#[test]
fn test_ipc_message_serialization() {
    let msg = Request {
        kind: "test".to_string(),
        message: Some("hello".to_string()),
        payload: Some(obj(vec![("key", Json::Str("value".to_string()))])),
    };
    let json = encode_request(&msg);
    assert!(json.contains("\"type\":\"test\""));
    assert!(json.contains("\"message\":\"hello\""));
    assert!(json.contains("\"key\":\"value\""));
}

#[test]
fn test_ipc_response_deserialization() {
    let json = r#"{"status":"ok","data":{"content":"test message"}}"#;
    let response: Response = decode_response(json).expect("Deserialization should work");
    assert_eq!(response.status, "ok");
    assert!(response.data.is_some());
}

#[test]
fn test_message_deserialization() {
    let json = r#"{
        "id": "test-id",
        "conversation_id": "conv-id",
        "role": "assistant",
        "content": "test content",
        "timestamp": 1234567890,
        "tokens_used": 100
    }"#;
    let message = decode_json(json).expect("Message deserialization should work");
    let pairs = match message {
        Json::Obj(pairs) => pairs,
        _ => panic!("expected an object"),
    };
    let get = |key: &str| -> &Json {
        &pairs.iter().find(|(k, _)| k == key).expect("field missing").1
    };
    assert!(matches!(get("id"), Json::Str(s) if s == "test-id"));
    assert!(matches!(get("content"), Json::Str(s) if s == "test content"));
    assert!(matches!(get("role"), Json::Str(s) if s == "assistant"));
    assert!(matches!(get("tokens_used"), Json::Int(100)));
    assert!(matches!(get("timestamp"), Json::Int(1234567890)));
}

#[test]
fn test_error_response_handling() {
    let json = r#"{"status":"error","data":{"error":"Test error message"}}"#;
    let response: Response = decode_response(json).expect("Error response should deserialize");
    assert_eq!(response.status, "error");
    if let Some(Json::Obj(pairs)) = response.data {
        let err = pairs.iter().find(|(k, _)| k == "error").expect("Error response should have data");
        assert!(matches!(&err.1, Json::Str(s) if s == "Test error message"));
    } else {
        panic!("Error response should have data");
    }
}

#[test]
fn request_round_trip_field_for_field() {
    let samples = vec![
        Request { kind: "notify".to_string(), message: Some("hi".to_string()), payload: None },
        Request { kind: "last".to_string(), message: None, payload: None },
        Request {
            kind: "create".to_string(),
            message: None,
            payload: Some(obj(vec![
                ("content", Json::Str("x \"quoted\" \\ and\nnewline".to_string())),
                ("conversation_id", Json::Str("c1".to_string())),
                ("n", Json::Int(-42)),
                ("flag", Json::Bool(true)),
                ("nothing", Json::Bool(false)),
                ("list", Json::Arr(vec![Json::Int(1), Json::Null, Json::Str("s".to_string())])),
            ])),
        },
    ];
    for req in samples {
        let line = encode_request(&req);
        let back = decode_request(&line).expect("encoded request should decode");
        assert_eq!(back.kind, req.kind);
        assert_eq!(back.message, req.message);
        assert_eq!(encode_request(&back), line);
    }
}

#[test]
fn response_round_trip() {
    let resp = Response {
        status: "ok".to_string(),
        data: Some(obj(vec![("content", Json::Str("unicode \u{203d} and \u{1f600}".to_string()))])),
    };
    let line = encode_response(&resp);
    let back = decode_response(&line).expect("encoded response should decode");
    assert_eq!(back.status, "ok");
    assert_eq!(encode_response(&back), line);
}

#[test]
fn json_parser_accepts_and_rejects() {
    assert!(decode_json("null").is_some());
    assert!(decode_json("  [1, 2, -3]  ").is_some());
    assert!(decode_json("{\"a\": {\"b\": [true, false, \"\\u0041\\u00e9\\ud83d\\ude00\"]}}").is_some());
    assert!(decode_json("9223372036854775807").is_some());
    assert!(decode_json("-9223372036854775808").is_some());
    // not this protocol's JSON: fractions, exponents, out-of-range, trailing text
    assert!(decode_json("9223372036854775808").is_none());
    assert!(decode_json("1.5").is_none());
    assert!(decode_json("1e3").is_none());
    assert!(decode_json("{\"a\":1} trailing").is_none());
    assert!(decode_json("{unquoted: 1}").is_none());
    assert!(decode_json("\"unterminated").is_none());
    assert!(decode_json("").is_none());
}

#[test]
fn json_escapes_round_trip() {
    let v = Json::Str("\u{0}\u{1f}\t\r\n\\\"/plain".to_string());
    let text = encode_json(&v);
    match decode_json(&text) {
        Some(Json::Str(s)) => assert_eq!(s, "\u{0}\u{1f}\t\r\n\\\"/plain"),
        _ => panic!("string should round-trip"),
    }
}

#[test]
fn duplicate_keys_take_last() {
    let line = r#"{"type":"a","type":"b"}"#;
    let req = decode_request(line).expect("object with repeated key decodes");
    assert_eq!(req.kind, "b");
}

#[test]
fn null_optional_fields_read_as_absent() {
    let req = decode_request(r#"{"type":"t","message":null,"payload":null}"#).expect("decodes");
    assert!(req.message.is_none());
    assert!(req.payload.is_none());
    // a request without a string type is malformed
    assert!(decode_request(r#"{"message":"hi"}"#).is_none());
    assert!(decode_request(r#"{"type":5}"#).is_none());
    assert!(decode_request(r#"{"type":"t","message":7}"#).is_none());
    assert!(decode_request(r#"[1,2]"#).is_none());
}
