use internal_extension::event::InboundEvent;
use internal_extension::event::InvocationError;
use internal_extension::handler::handle_invocation;

#[test]
fn responds_with_status_200_and_four_keys() {
    let event = InboundEvent {
        source_ip: Some("203.0.113.7".to_string()),
    };
    let resp = handle_invocation(&event, "x86_64", "linux").unwrap();
    assert_eq!(resp.status_code, 200);
    let decoded: serde_json::Value = serde_json::from_str(&resp.body).unwrap();
    let obj = decoded.as_object().unwrap();
    assert_eq!(obj.len(), 4);
    assert_eq!(obj.get("message").unwrap(), "hello rust");
    assert_eq!(obj.get("source ip").unwrap(), "203.0.113.7");
    assert_eq!(obj.get("architecture").unwrap(), "x86_64");
    assert_eq!(obj.get("operating system").unwrap(), "linux");
}

#[test]
fn body_is_exactly_the_sorted_key_object() {
    let event = InboundEvent {
        source_ip: Some("1.2.3.4".to_string()),
    };
    let resp = handle_invocation(&event, "arm64", "darwin").unwrap();
    assert_eq!(
        resp.body,
        "{\"architecture\":\"arm64\",\"message\":\"hello rust\",\
         \"operating system\":\"darwin\",\"source ip\":\"1.2.3.4\"}"
    );
}

#[test]
fn body_matches_what_serde_json_would_write() {
    let event = InboundEvent {
        source_ip: Some("10.0.0.1".to_string()),
    };
    let resp = handle_invocation(&event, "x86_64", "linux").unwrap();
    let mut map = serde_json::Map::new();
    map.insert(
        "message".to_string(),
        serde_json::Value::String("hello rust".to_string()),
    );
    map.insert(
        "source ip".to_string(),
        serde_json::Value::String("10.0.0.1".to_string()),
    );
    map.insert(
        "architecture".to_string(),
        serde_json::Value::String("x86_64".to_string()),
    );
    map.insert(
        "operating system".to_string(),
        serde_json::Value::String("linux".to_string()),
    );
    assert_eq!(resp.body, serde_json::Value::Object(map).to_string());
}

#[test]
fn missing_source_ip_fails_without_substituting_data() {
    let event = InboundEvent { source_ip: None };
    match handle_invocation(&event, "x86_64", "linux") {
        Err(e) => assert_eq!(e, InvocationError::MissingSourceIp),
        Ok(_) => panic!("an event without a source address must fail"),
    }
}

#[test]
fn empty_source_ip_is_still_answered() {
    let event = InboundEvent {
        source_ip: Some(String::new()),
    };
    let resp = handle_invocation(&event, "x86_64", "linux").unwrap();
    assert_eq!(resp.status_code, 200);
    let decoded: serde_json::Value = serde_json::from_str(&resp.body).unwrap();
    assert_eq!(decoded.get("source ip").unwrap(), "");
}

#[test]
fn escapes_special_characters_in_source_ip() {
    let tricky = "a\"b\\c\nd\te\u{1}f";
    let event = InboundEvent {
        source_ip: Some(tricky.to_string()),
    };
    let resp = handle_invocation(&event, "x", "y").unwrap();
    let decoded: serde_json::Value = serde_json::from_str(&resp.body).unwrap();
    assert_eq!(decoded.get("source ip").unwrap(), tricky);
}
