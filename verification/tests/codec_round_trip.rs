use internal_extension::codec::parse_response;
use internal_extension::codec::serialize_response;
use internal_extension::event::OutboundResponse;

#[test]
fn serialized_envelope_is_exact() {
    let r = OutboundResponse {
        status_code: 200,
        body: "ok".to_string(),
    };
    assert_eq!(serialize_response(&r), "{\"statusCode\":200,\"body\":\"ok\"}");
}

#[test]
fn serialized_envelope_parses_with_serde_json() {
    let r = OutboundResponse {
        status_code: 200,
        body: "hello \"world\"\nline two".to_string(),
    };
    let s = serialize_response(&r);
    let v: serde_json::Value = serde_json::from_str(&s).unwrap();
    assert_eq!(v.get("statusCode").unwrap().as_i64().unwrap(), 200);
    assert_eq!(v.get("body").unwrap(), r.body.as_str());
}

#[test]
fn round_trip_keeps_both_fields() {
    let r = OutboundResponse {
        status_code: 200,
        body: "{\"architecture\":\"x86_64\"}".to_string(),
    };
    let s = serialize_response(&r);
    let back = parse_response(&s).unwrap();
    assert_eq!(back.status_code, r.status_code);
    assert_eq!(back.body, r.body);
}

#[test]
fn round_trip_with_negative_status_and_control_characters() {
    let r = OutboundResponse {
        status_code: -12,
        body: "a\u{1}\u{1f}\"\\\u{8}\u{c}\r\n\tz".to_string(),
    };
    let s = serialize_response(&r);
    let back = parse_response(&s).unwrap();
    assert_eq!(back.status_code, r.status_code);
    assert_eq!(back.body, r.body);
}

#[test]
fn round_trip_of_extreme_status_codes() {
    for code in [i32::MIN, -1, 0, 1, i32::MAX] {
        let r = OutboundResponse {
            status_code: code,
            body: String::new(),
        };
        let back = parse_response(&serialize_response(&r)).unwrap();
        assert_eq!(back.status_code, code);
        assert_eq!(back.body, "");
    }
}

#[test]
fn rejects_malformed_envelopes() {
    assert!(parse_response("").is_none());
    assert!(parse_response("{\"statusCode\":200}").is_none());
    assert!(parse_response("{\"statusCode\":,\"body\":\"\"}").is_none());
    assert!(parse_response("{\"statusCode\":200,\"body\":\"unterminated}").is_none());
    assert!(parse_response("{\"statusCode\":200,\"body\":\"x\"} ").is_none());
    assert!(parse_response("{\"statusCode\":200,\"body\":\"\\q\"}").is_none());
}

#[test]
fn rejects_status_out_of_range() {
    assert!(parse_response("{\"statusCode\":2147483648,\"body\":\"\"}").is_none());
    assert!(parse_response("{\"statusCode\":-2147483649,\"body\":\"\"}").is_none());
    assert!(parse_response("{\"statusCode\":99999999999,\"body\":\"\"}").is_none());
}
