use carapace::protocol::grpc::{block_stub_body, grpc_frames, GrpcAdapter, GrpcBody};
use carapace::protocol::{pick, AdapterKind, AnthropicAdapter, OpenAiAdapter, PassthroughAdapter};

#[test]
fn recognizes_grpc_content_type() {
    let adapter = GrpcAdapter;
    assert!(adapter.accepts("application/grpc"));
    assert!(adapter.accepts("application/grpc+proto"));
    assert!(!adapter.accepts("text/event-stream"));
}

#[test]
fn block_stub_body_is_two_byte_grpc_message() {
    let stub = block_stub_body();
    // 5 bytes header + payload.
    assert_eq!(stub.len(), 7);
    // compressed_flag = 0
    assert_eq!(stub[0], 0);
    // length = 2
    assert_eq!(u32::from_be_bytes([stub[1], stub[2], stub[3], stub[4]]), 2);
    // status.code tag = field 1, type varint = 0x08
    assert_eq!(stub[5], 0x08);
    // status value = PERMISSION_DENIED (7)
    assert_eq!(stub[6], 7);
}

fn messages(body: &[u8]) -> Vec<Vec<u8>> {
    match grpc_frames(body) {
        GrpcBody::Unframed => vec![body.to_vec()],
        GrpcBody::Framed(ranges) => ranges.iter().map(|&(s, e)| body[s..e].to_vec()).collect(),
    }
}

#[test]
fn stream_emits_each_grpc_frame_as_raw_event() {
    // Two gRPC frames with payloads "AAAA" and "BBBB".
    let mut body = Vec::new();
    body.extend_from_slice(&[0x00, 0x00, 0x00, 0x00, 0x04]);
    body.extend_from_slice(b"AAAA");
    body.extend_from_slice(&[0x00, 0x00, 0x00, 0x00, 0x04]);
    body.extend_from_slice(b"BBBB");
    let events = messages(&body);
    assert_eq!(events.len(), 2);
    assert_eq!(events[0], b"AAAA".to_vec());
    assert_eq!(events[1], b"BBBB".to_vec());
}

#[test]
fn stream_stops_on_truncated_frame() {
    // 5-byte header claims 4 bytes, but only 2 follow.
    let mut body = Vec::new();
    body.extend_from_slice(&[0x00, 0x00, 0x00, 0x00, 0x04]);
    body.extend_from_slice(b"AB");
    assert_eq!(messages(&body).len(), 0);
}

#[test]
fn stream_drops_on_compressed_frame() {
    // First byte is compressed_flag = 1.
    let mut body = Vec::new();
    body.extend_from_slice(&[0x01, 0x00, 0x00, 0x00, 0x04]);
    body.extend_from_slice(b"AAAA");
    assert_eq!(messages(&body).len(), 0);
}

#[test]
fn stream_passes_through_unrecognised_body() {
    let body = b"hello without grpc framing";
    let events = messages(body);
    assert_eq!(events.len(), 1);
    assert_eq!(events[0], body.to_vec());
}

#[test]
fn frames_after_a_good_one_stop_at_truncation() {
    let mut body = Vec::new();
    body.extend_from_slice(&[0x00, 0x00, 0x00, 0x00, 0x01, b'Z']);
    body.extend_from_slice(&[0x00, 0x00, 0x00, 0x01, 0x00, b'Q']);
    assert_eq!(grpc_frames(&body), GrpcBody::Framed(vec![(5, 6)]));
}

#[test]
fn empty_message_frame_is_surfaced() {
    let body = [0x00, 0x00, 0x00, 0x00, 0x00];
    assert_eq!(grpc_frames(&body), GrpcBody::Framed(vec![(5, 5)]));
}

#[test]
fn grpc_adapter_name_and_proto_content_type() {
    assert_eq!(GrpcAdapter.name(), "grpc");
    assert!(GrpcAdapter.accepts("application/x-protobuf"));
}

#[test]
fn pick_by_upstream_and_content_type() {
    assert_eq!(pick("https://api.anthropic.com", ""), AdapterKind::Anthropic);
    assert_eq!(pick("https://gw.example", "application/anthropic+json"), AdapterKind::Anthropic);
    assert_eq!(pick("https://api.openai.com", ""), AdapterKind::OpenAi);
    assert_eq!(pick("https://gw.example/v1/chat", ""), AdapterKind::OpenAi);
    assert_eq!(pick("https://gw.example", "text/openai-stream"), AdapterKind::OpenAi);
    assert_eq!(pick("https://gw.example", "application/json"), AdapterKind::Passthrough);
    assert_eq!(pick("https://api.anthropic.com/v1/", "openai"), AdapterKind::Anthropic);
}

#[test]
fn adapter_names_and_content_types() {
    assert_eq!(AdapterKind::Anthropic.name(), "anthropic");
    assert_eq!(AdapterKind::OpenAi.name(), "openai");
    assert_eq!(AdapterKind::Passthrough.name(), "passthrough");
    assert_eq!(AnthropicAdapter.name(), "anthropic");
    assert_eq!(OpenAiAdapter.name(), "openai");
    assert_eq!(PassthroughAdapter.name(), "passthrough");
    assert!(AnthropicAdapter.accepts("text/event-stream"));
    assert!(!AnthropicAdapter.accepts("application/json"));
    assert!(OpenAiAdapter.accepts("application/openai"));
    assert!(PassthroughAdapter.accepts("anything"));
}

#[test]
fn encoded_frames_read_back_as_their_messages() {
    let msgs: Vec<&[u8]> = vec![b"hello", b"", b"world!"];
    let mut body = Vec::new();
    for m in &msgs {
        body.push(0u8);
        body.extend_from_slice(&(m.len() as u32).to_be_bytes());
        body.extend_from_slice(m);
    }
    let got = messages(&body);
    assert_eq!(got, msgs.iter().map(|m| m.to_vec()).collect::<Vec<_>>());
}
