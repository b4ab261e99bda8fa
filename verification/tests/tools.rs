use carapace::json::JsonValue;
use carapace::tools::parse_request_tools;

/// Decode a request body the way the application does before asking the
/// library for the declared tools.
fn decode(body: &[u8]) -> Option<JsonValue> {
    fn convert(v: serde_json::Value) -> JsonValue {
        match v {
            serde_json::Value::Null => JsonValue::Null,
            serde_json::Value::Bool(b) => JsonValue::Bool(b),
            serde_json::Value::Number(n) => JsonValue::Number(n.to_string()),
            serde_json::Value::String(s) => JsonValue::Str(s),
            serde_json::Value::Array(a) => JsonValue::Array(a.into_iter().map(convert).collect()),
            serde_json::Value::Object(m) => JsonValue::Object(m.into_iter().map(|(k, v)| (k, convert(v))).collect()),
        }
    }
    serde_json::from_slice::<serde_json::Value>(body).ok().map(convert)
}

fn tools_of(body: &str, protocol: &str) -> Vec<String> {
    let v = decode(body.as_bytes());
    parse_request_tools(v.as_ref(), protocol)
}

#[test]
fn parses_anthropic_tools_array() {
    let body = r#"{
        "model": "sonnet-3-5-mock",
        "messages": [],
        "tools": [
            {"name": "Bash", "description": "shell", "input_schema": {}},
            {"name": "Read", "description": "read file", "input_schema": {}},
            {"name": "Write", "description": "write file", "input_schema": {}}
        ]
    }"#;
    let tools = tools_of(body, "anthropic");
    assert!(tools.contains(&"Bash".to_string()));
    assert!(tools.contains(&"Read".to_string()));
    assert!(tools.contains(&"Write".to_string()));
    assert_eq!(tools.len(), 3);
}

#[test]
fn parses_openai_tools_array() {
    let body = r#"{
        "model": "gpt-4-mock",
        "messages": [],
        "tools": [
            {"type": "function", "function": {"name": "get_weather"}},
            {"type": "function", "function": {"name": "send_email"}}
        ]
    }"#;
    let tools = tools_of(body, "openai");
    assert!(tools.contains(&"get_weather".to_string()));
    assert!(tools.contains(&"send_email".to_string()));
    assert_eq!(tools.len(), 2);
}

#[test]
fn no_tools_field_returns_empty_set() {
    let tools = tools_of(r#"{"model": "x", "messages": []}"#, "anthropic");
    assert!(tools.is_empty());
}

#[test]
fn malformed_body_returns_empty_set() {
    let tools = tools_of("not json at all", "anthropic");
    assert!(tools.is_empty());
}

#[test]
fn mixed_format_tools_all_extracted() {
    // Edge case — some upstreams accept both shapes. We want all of them.
    let body = r#"{
        "tools": [
            {"name": "Bash"},
            {"type": "function", "function": {"name": "WebFetch"}}
        ]
    }"#;
    let tools = tools_of(body, "anthropic");
    assert_eq!(tools.len(), 2);
    assert!(tools.contains(&"Bash".to_string()));
    assert!(tools.contains(&"WebFetch".to_string()));
}

#[test]
fn repeated_names_count_once_and_odd_entries_are_skipped() {
    let body = r#"{"tools": [{"name": "Bash"}, {"name": 3}, "Bash", {"function": {"name": "Bash"}}, {"name": "Read"}]}"#;
    assert_eq!(tools_of(body, "openai"), vec!["Bash".to_string(), "Read".to_string()]);
}

#[test]
fn tools_that_is_not_an_array_declares_nothing() {
    assert!(tools_of(r#"{"tools": {"name": "Bash"}}"#, "anthropic").is_empty());
    assert!(tools_of(r#"[{"tools": []}]"#, "anthropic").is_empty());
}

#[test]
fn json_member_lookup() {
    let v = JsonValue::Object(vec![
        ("a".to_string(), JsonValue::Str("x".to_string())),
        ("b".to_string(), JsonValue::Bool(true)),
    ]);
    assert!(matches!(v.get("a"), Some(JsonValue::Str(s)) if s == "x"));
    assert!(v.get("c").is_none());
    assert!(JsonValue::Null.get("a").is_none());
    assert_eq!(v.get("a").and_then(|x| x.as_str()).map(|s| s.as_str()), Some("x"));
}

#[test]
fn repeated_key_yields_the_first_member() {
    let v = JsonValue::Object(vec![
        ("name".to_string(), JsonValue::Str("first".to_string())),
        ("name".to_string(), JsonValue::Str("second".to_string())),
    ]);
    assert!(matches!(v.get("name"), Some(JsonValue::Str(s)) if s == "first"));
}
