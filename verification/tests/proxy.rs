use carapace::protocol::AdapterKind;
use carapace::proxy::{
    auth_header, extract_host, forwards_body, mode_label, plan_request, replaces_response, stub_shape, trimmed_host,
    upstream_target, AuthHeader, Mode, StubShape,
};
use carapace::secure::Secret;

#[test]
fn mode_labels() {
    assert_eq!(mode_label(Mode::Monitor), "monitor");
    assert_eq!(mode_label(Mode::Block), "block");
}

#[test]
fn connect_host_strips_scheme_and_path() {
    assert_eq!(extract_host("https://api.anthropic.com/v1/messages"), "api.anthropic.com");
    assert_eq!(extract_host("http://127.0.0.1:8080/x"), "127.0.0.1:8080");
    assert_eq!(extract_host("localhost:9000"), "localhost:9000");
    assert_eq!(trimmed_host("a.b/c/d"), "a.b");
    assert_eq!(trimmed_host("no-slash"), "no-slash");
}

#[test]
fn upstream_target_joins_base_and_path() {
    assert_eq!(upstream_target("https://api.openai.com//", Some("/v1/chat?x=1")), "https://api.openai.com/v1/chat?x=1");
    assert_eq!(upstream_target("https://u.example", None), "https://u.example/");
}

#[test]
fn anthropic_gets_api_key_others_bearer() {
    let key = Secret::new("sk-test".to_string());
    assert_eq!(auth_header("anthropic", &key), Some((AuthHeader::ApiKey, "sk-test".to_string())));
    assert_eq!(auth_header("openai", &key), Some((AuthHeader::Bearer, "Bearer sk-test".to_string())));
    assert_eq!(auth_header("anthropic", &Secret::empty()), None);
}

#[test]
fn get_and_head_carry_no_body() {
    assert!(!forwards_body("GET"));
    assert!(!forwards_body("HEAD"));
    assert!(forwards_body("POST"));
    assert!(forwards_body("get"));
}

#[test]
fn block_mode_replaces_only_severe_flagged_responses() {
    assert!(replaces_response(false, Mode::Block, 60));
    assert!(!replaces_response(false, Mode::Block, 59));
    assert!(!replaces_response(true, Mode::Block, 100));
    assert!(!replaces_response(false, Mode::Monitor, 100));
}

#[test]
fn plan_for_relative_anthropic_request() {
    let key = Secret::new("k".to_string());
    let p = plan_request("https://api.anthropic.com/", false, Some("/v1/messages"), "application/json", "POST", &key);
    assert_eq!(p.target, Some("https://api.anthropic.com/v1/messages".to_string()));
    assert_eq!(p.adapter, AdapterKind::Anthropic);
    assert_eq!(p.auth, Some((AuthHeader::ApiKey, "k".to_string())));
    assert!(p.forward_body);
    assert_eq!(p.connect_host, "api.anthropic.com");
}

#[test]
fn plan_for_absolute_request_without_key() {
    let p = plan_request("http://gw.example:8000", true, Some("/x"), "", "GET", &Secret::empty());
    assert_eq!(p.target, None);
    assert_eq!(p.adapter, AdapterKind::Passthrough);
    assert_eq!(p.auth, None);
    assert!(!p.forward_body);
    assert_eq!(p.connect_host, "gw.example:8000");
}

#[test]
fn no_tools_are_declared_yet() {
    assert!(carapace::proxy::parse_declared_tools(b"{\"tools\":[{\"name\":\"Bash\"}]}", "anthropic").is_empty());
}

#[test]
fn stub_shape_follows_protocol() {
    assert_eq!(stub_shape("anthropic"), StubShape::Anthropic);
    assert_eq!(stub_shape("openai"), StubShape::OpenAi);
    assert_eq!(stub_shape("passthrough"), StubShape::OpenAi);
}
