use carapace::egress::{allows_host, host_of_lowered, sensitive_mentions, under_domain};
use carapace::egress::{default_allowlist, extract_host, scan_sensitive_paths, EgressDecision, EgressPolicy};

/// Shannon entropy in bits per byte, as the application measures a body.
fn shannon_entropy(data: &[u8]) -> f32 {
    if data.is_empty() {
        return 0.0;
    }
    let mut counts = [0u32; 256];
    for &b in data {
        counts[b as usize] += 1;
    }
    let total = data.len() as f32;
    let mut entropy = 0.0f32;
    for &c in counts.iter() {
        if c == 0 {
            continue;
        }
        let p = c as f32 / total;
        entropy -= p * p.log2();
    }
    entropy
}

/// The entropy verdict the application hands to `evaluate` (threshold 7.5).
fn high_entropy(p: &EgressPolicy, body: &[u8]) -> bool {
    p.entropy_applies(body.len()) && shannon_entropy(body) >= 7.5
}

#[test]
fn allowlist_default_contains_anthropic() {
    let p = EgressPolicy::new();
    let body = b"{}";
    let r = p.evaluate("https://api.anthropic.com/v1/messages", body, high_entropy(&p, body));
    assert!(r.allowlisted);
    assert_eq!(r.decision, EgressDecision::Allow);
}

#[test]
fn blocklist_hard_denies() {
    let bl = vec!["evil.example".to_string()];
    let p = EgressPolicy::new().with_blocklist(bl);
    let body = b"data";
    let r = p.evaluate("https://evil.example/upload", body, high_entropy(&p, body));
    assert!(r.blocklisted);
    assert_eq!(r.decision, EgressDecision::Block);
}

#[test]
fn blocklist_catches_subdomain() {
    let bl = vec!["evil.example".to_string()];
    let p = EgressPolicy::new().with_blocklist(bl);
    let body = b"data";
    let r = p.evaluate("https://sub.evil.example/upload", body, high_entropy(&p, body));
    assert!(r.blocklisted);
}

#[test]
fn wildcard_allowlist_matches_subdomain() {
    let p = EgressPolicy::new().with_allowlist(vec!["*.githubusercontent.com".to_string()]);
    let body = b"";
    let r = p.evaluate("https://raw.githubusercontent.com/file.txt", body, high_entropy(&p, body));
    assert!(r.allowlisted);
}

#[test]
fn unknown_destination_blocks_when_strict() {
    let p = EgressPolicy::new().block_unknown_destinations(true);
    let body = b"data";
    let r = p.evaluate("https://unknown.example/upload", body, high_entropy(&p, body));
    assert!(!r.allowlisted);
    assert_eq!(r.decision, EgressDecision::Block);
}

#[test]
fn unknown_destination_asks_when_not_strict() {
    let p = EgressPolicy::new();
    let body = b"data";
    let r = p.evaluate("https://unknown.example/upload", body, high_entropy(&p, body));
    assert_eq!(r.decision, EgressDecision::Ask);
}

#[test]
fn high_entropy_blocks_when_unknown() {
    let p = EgressPolicy::new();
    // 256 bytes of pseudo-random high-entropy data.
    let mut data = Vec::with_capacity(256);
    for i in 0..256u32 {
        data.push((i.wrapping_mul(0x9E3779B1) >> 24) as u8);
    }
    let r = p.evaluate("https://unknown.example/upload", &data, high_entropy(&p, &data));
    assert!(r.high_entropy);
    assert_eq!(r.decision, EgressDecision::Block);
}

#[test]
fn low_entropy_short_body_not_flagged() {
    let p = EgressPolicy::new();
    let body = b"hello";
    let r = p.evaluate("https://api.anthropic.com/v1/messages", body, high_entropy(&p, body));
    assert!(!r.high_entropy);
    assert_eq!(r.decision, EgressDecision::Allow);
}

#[test]
fn sensitive_path_in_body_blocks() {
    let p = EgressPolicy::new();
    let body = b"uploading my config: cat ~/.ssh/id_rsa contents follow";
    let r = p.evaluate("https://api.anthropic.com/v1/messages", body, high_entropy(&p, body));
    assert!(!r.sensitive_paths.is_empty());
    assert_eq!(r.decision, EgressDecision::Block);
}

#[test]
fn env_var_token_in_body_blocks() {
    let p = EgressPolicy::new();
    let body = b"running with $OPENAI_API_KEY from env";
    let r = p.evaluate("https://api.anthropic.com/v1/messages", body, high_entropy(&p, body));
    assert!(!r.sensitive_paths.is_empty());
    assert_eq!(r.decision, EgressDecision::Block);
}

#[test]
fn extract_host_handles_https() {
    assert_eq!(
        extract_host("https://api.anthropic.com/v1/messages"),
        Some("api.anthropic.com".to_string())
    );
    assert_eq!(
        extract_host("http://localhost:8080/foo"),
        Some("localhost".to_string())
    );
    assert_eq!(extract_host("not a url"), None);
}

#[test]
fn default_allowlist_has_llm_providers() {
    let _ = EgressPolicy::new();
    // Verify the list compiled without panic.
}

#[test]
fn default_allowlist_lists_providers_registries_and_localhost() {
    let a = default_allowlist();
    assert_eq!(a.len(), 35);
    assert_eq!(a[0], "api.anthropic.com");
    assert!(a.iter().any(|h| h == "*.github.io"));
    assert!(a.iter().any(|h| h == "*.githubusercontent.com"));
    assert!(a.iter().any(|h| h == "localhost"));
    assert_eq!(a[34], "::1");
}

#[test]
fn extract_host_lowercases_and_stops_at_query_fragment_or_port() {
    assert_eq!(extract_host("HTTPS://API.Example.COM?x=1"), Some("api.example.com".to_string()));
    assert_eq!(extract_host("https://h.example#frag"), Some("h.example".to_string()));
    assert_eq!(extract_host("https:///path"), None);
    assert_eq!(extract_host("ftp://h.example/"), None);
}

#[test]
fn unparseable_destination_is_reported_as_unknown() {
    let p = EgressPolicy::new();
    let r = p.evaluate("not a url", b"x", false);
    assert_eq!(r.destination_host, "unknown");
    assert!(!r.allowlisted);
    assert_eq!(r.decision, EgressDecision::Ask);
    assert_eq!(r.destination_reasons, vec!["destination not in allowlist: unknown".to_string()]);
}

#[test]
fn blocklisted_destination_reason_and_no_allowlist_reason() {
    let p = EgressPolicy::new().with_blocklist(vec!["Evil.Example".to_string()]);
    let r = p.evaluate("https://SUB.EVIL.example/x", b"", false);
    assert!(r.blocklisted);
    assert_eq!(r.destination_reasons, vec!["destination in known-bad blocklist: sub.evil.example".to_string()]);
    // The exact-match lookup compares the lowercased host with the entry as written.
    let exact = p.evaluate("https://evil.example/x", b"", false);
    assert!(!exact.blocklisted);
}

#[test]
fn strict_mode_reason_wording() {
    let p = EgressPolicy::new().block_unknown_destinations(true);
    let r = p.evaluate("https://unknown.example/upload", b"", false);
    assert_eq!(
        r.destination_reasons,
        vec!["destination not in allowlist (block-unknown mode): unknown.example".to_string()]
    );
}

#[test]
fn high_entropy_to_allowlisted_destination_asks() {
    let p = EgressPolicy::new();
    let r = p.evaluate("https://api.openai.com/v1/x", b"", true);
    assert!(r.allowlisted);
    assert_eq!(r.decision, EgressDecision::Ask);
}

#[test]
fn sensitive_paths_listed_in_pattern_order_with_reasons() {
    let found = scan_sensitive_paths(b"wallet.dat and .ssh/id_rsa and Bearer eyJhbGc");
    assert_eq!(found, vec![".ssh/id_rsa".to_string(), "wallet.dat".to_string(), "bearer eyj".to_string()]);
    let p = EgressPolicy::new();
    let r = p.evaluate("https://api.anthropic.com/", b".netrc", false);
    assert_eq!(r.path_reasons, vec!["sensitive path in outbound body: .netrc".to_string()]);
}

#[test]
fn non_utf8_body_has_no_sensitive_paths() {
    assert!(scan_sensitive_paths(&[0xff, 0xfe, b'.', b'n', b'e', b't', b'r', b'c']).is_empty());
}

#[test]
fn decision_labels() {
    assert_eq!(EgressDecision::Allow.label(), "allow");
    assert_eq!(EgressDecision::Ask.label(), "ask");
    assert_eq!(EgressDecision::Block.label(), "block");
    assert!(EgressDecision::Block.is_blocking());
    assert!(!EgressDecision::Ask.is_blocking());
}

#[test]
fn entropy_scan_starts_at_sixty_four_bytes() {
    let p = EgressPolicy::new();
    assert!(!p.entropy_applies(63));
    assert!(p.entropy_applies(64));
}

#[test]
fn default_policy_matches_new() {
    let d = EgressPolicy::default();
    let r = d.evaluate("https://pypi.org/simple", b"", false);
    assert!(r.allowlisted);
    assert_eq!(r.decision, EgressDecision::Allow);
}

#[test]
fn lowered_helpers_decide_on_given_text() {
    assert_eq!(host_of_lowered("https://a.b:443/x"), Some("a.b".to_string()));
    assert_eq!(host_of_lowered("HTTPS://A.B/"), None);
    assert!(under_domain("x.evil.example", "evil.example"));
    assert!(!under_domain("evil.example", "evil.example"));
    assert!(!under_domain("notevil.example", "evil.example"));
    assert!(allows_host("*.github.io", "github.io"));
    assert!(allows_host("*.github.io", "me.github.io"));
    assert!(!allows_host("*.github.io", "github.com"));
    assert!(allows_host("docs.rs", "docs.rs"));
    assert!(!allows_host("docs.rs", "x.docs.rs"));
    assert_eq!(
        sensitive_mentions("KEY $TOKEN .netrc", "key $token .netrc"),
        vec![".netrc".to_string(), "$token".to_string()]
    );
    assert_eq!(sensitive_mentions("$TOKEN", "nothing"), Vec::<String>::new());
}

#[test]
fn dotenv_in_body_blocks() {
    let p = EgressPolicy::new();
    let body = b"uploading .env contents";
    assert_eq!(scan_sensitive_paths(body), vec![".env".to_string()]);
    let r = p.evaluate("https://api.anthropic.com/v1/messages", body, false);
    assert_eq!(r.decision, EgressDecision::Block);
}

#[test]
fn raw_github_content_stays_allowed_by_default() {
    let p = EgressPolicy::new();
    let r = p.evaluate("https://raw.githubusercontent.com/o/r/main/x", b"", false);
    assert!(r.allowlisted);
    assert_eq!(r.decision, EgressDecision::Allow);
}
