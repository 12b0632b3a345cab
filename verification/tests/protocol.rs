//! Tests of the worker response line protocol.

use voxtype::response::{parse_response_line, WorkerResponse};

#[test]
fn test_worker_response_parsing() {
    let success = parse_response_line("{\"ok\": true, \"text\": \"Hello world\"}").unwrap();
    assert!(success.ok);
    assert_eq!(success.text, Some("Hello world".to_string()));

    let error = parse_response_line("{\"ok\": false, \"error\": \"Model not found\"}").unwrap();
    assert!(!error.ok);
    assert_eq!(error.error, Some("Model not found".to_string()));
}

#[test]
fn test_worker_response_serialization() {
    let success = WorkerResponse::success("Hello world".to_string());
    let json = success.to_json_line();
    assert!(json.contains("\"ok\":true"));
    assert!(json.contains("\"text\":\"Hello world\""));

    let error = WorkerResponse::error("Something went wrong".to_string());
    let json = error.to_json_line();
    assert!(json.contains("\"ok\":false"));
    assert!(json.contains("\"error\":\"Something went wrong\""));
}

#[test]
fn serialization_is_exact() {
    let success = WorkerResponse::success("hi".to_string());
    assert_eq!(success.to_json_line(), "{\"ok\":true,\"text\":\"hi\"}");

    let error = WorkerResponse::error("bad".to_string());
    assert_eq!(error.to_json_line(), "{\"ok\":false,\"error\":\"bad\"}");
}

#[test]
fn serialization_escapes_specials() {
    let success = WorkerResponse::success("a\"b\\c\nd".to_string());
    assert_eq!(success.to_json_line(), "{\"ok\":true,\"text\":\"a\\\"b\\\\c\\nd\"}");
    // the rarer control characters travel as hex escapes
    let success = WorkerResponse::success("a\u{b}b\u{1f}c".to_string());
    assert_eq!(
        success.to_json_line(),
        "{\"ok\":true,\"text\":\"a\\u000bb\\u001fc\"}"
    );
}

#[test]
fn round_trip_success_line() {
    let resp = WorkerResponse::success("tabs\tand \"quotes\"".to_string());
    let line = resp.to_json_line();
    let parsed = parse_response_line(&line).unwrap();
    assert!(parsed.ok);
    assert_eq!(parsed.text, Some("tabs\tand \"quotes\"".to_string()));
    assert_eq!(parsed.error, None);
}

#[test]
fn round_trip_error_line() {
    let resp = WorkerResponse::error("model not found".to_string());
    let line = resp.to_json_line();
    let parsed = parse_response_line(&line).unwrap();
    assert!(!parsed.ok);
    assert_eq!(parsed.error, Some("model not found".to_string()));
    assert_eq!(parsed.text, None);
}

#[test]
fn parsing_rejects_malformed_lines() {
    assert!(parse_response_line("").is_none());
    assert!(parse_response_line("not json").is_none());
    assert!(parse_response_line("{\"ok\":true").is_none());
    // the ok member is owed
    assert!(parse_response_line("{\"text\":\"hello\"}").is_none());
    assert!(parse_response_line("{}").is_none());
    // values of the wrong shape
    assert!(parse_response_line("{\"ok\":\"yes\"}").is_none());
    assert!(parse_response_line("{\"ok\":true,\"text\":3}").is_none());
    // a repeated member is a protocol violation
    assert!(parse_response_line("{\"ok\":true,\"ok\":true}").is_none());
    // trailing garbage after the object
    assert!(parse_response_line("{\"ok\":true,\"text\":\"a\"} x").is_none());
}

#[test]
fn parsing_tolerates_whitespace_order_and_unknown_members() {
    let p = parse_response_line("  { \"text\" : \"a\" , \"ok\" : true }  ").unwrap();
    assert!(p.ok);
    assert_eq!(p.text, Some("a".to_string()));

    let p = parse_response_line("{\"ok\":false,\"extra\":null,\"error\":\"e\"}").unwrap();
    assert!(!p.ok);
    assert_eq!(p.error, Some("e".to_string()));

    // an explicit null text is an absent text
    let p = parse_response_line("{\"ok\":true,\"text\":null}").unwrap();
    assert!(p.ok);
    assert_eq!(p.text, None);

    // an unknown member may carry a number of any JSON shape
    let p = parse_response_line("{\"ok\":true,\"text\":\"x\",\"n\":5}").unwrap();
    assert_eq!(p.text, Some("x".to_string()));
    let p = parse_response_line("{\"elapsed\":-12.25e+3,\"ok\":false,\"error\":\"e\"}").unwrap();
    assert!(!p.ok);
    // but a malformed number still rejects the line
    assert!(parse_response_line("{\"ok\":true,\"n\":01}").is_none());
    assert!(parse_response_line("{\"ok\":true,\"n\":1.}").is_none());
    // and a number where the schema wants a string or boolean does too
    assert!(parse_response_line("{\"ok\":1}").is_none());
}

#[test]
fn parsing_decodes_escapes() {
    let p = parse_response_line("{\"ok\":true,\"text\":\"a\\\"b\\\\c\\nd\\te\\/f\"}").unwrap();
    assert_eq!(p.text, Some("a\"b\\c\nd\te/f".to_string()));
    // hex escapes cover the basic plane, either digit case
    let p = parse_response_line("{\"ok\":true,\"text\":\"\\u0041\\u00e9\\u20AC\"}").unwrap();
    assert_eq!(p.text, Some("A\u{e9}\u{20ac}".to_string()));
    // a lone surrogate or a short escape rejects the line
    assert!(parse_response_line("{\"ok\":true,\"text\":\"\\ud800\"}").is_none());
    assert!(parse_response_line("{\"ok\":true,\"text\":\"\\u00\"}").is_none());
}

#[test]
fn round_trip_control_characters() {
    let resp = WorkerResponse::success("bell \u{7} and vtab \u{b}".to_string());
    let parsed = parse_response_line(&resp.to_json_line()).unwrap();
    assert_eq!(parsed.text, Some("bell \u{7} and vtab \u{b}".to_string()));
}
