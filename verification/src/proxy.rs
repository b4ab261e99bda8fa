//! Inspecting reverse proxy: the decisions it takes on each request.
//!
//! The proxy sits between an AI client and an upstream LLM provider. It
//! forwards requests, reads responses through the inspector, and either
//! logs alerts or substitutes a safe stub for a malicious response. The
//! network plumbing runs in the application; what is decided here is where
//! a request goes, which credentials it carries, whether its body is
//! forwarded and whether a response is replaced.
use vstd::prelude::*;

use crate::protocol::{adapter_name, pick, spec_pick, AdapterKind};
use crate::secure::Secret;
use crate::text::{chars_of, has_prefix, starts_with_chars, string_of_range};

verus! {

/// Whether the proxy only logs or also blocks.
#[derive(Debug, Clone, Copy, PartialEq, Eq, Structural)]
pub enum Mode {
    Monitor,
    Block,
}

/// Lower-case name of the mode.
pub fn mode_label(m: Mode) -> (s: &'static str)
    ensures
        s@ == match m {
            Mode::Monitor => "monitor"@,
            Mode::Block => "block"@,
        },
{
    match m {
        Mode::Monitor => "monitor",
        Mode::Block => "block",
    }
}

/// The characters of `s` before its first `/` (all of `s` if none).
pub open spec fn before_slash(s: Seq<char>) -> Seq<char> {
    s.take(slash_from(s, 0))
}

/// Position of the first `/` at or after `k`, or the length.
pub open spec fn slash_from(s: Seq<char>, k: int) -> int
    decreases s.len() - k,
{
    if k < 0 || k >= s.len() {
        s.len() as int
    } else if s[k] == '/' {
        k
    } else {
        slash_from(s, k + 1)
    }
}

/// The part of `s` before its first `/`.
pub fn trimmed_host(s: &str) -> (r: String)
    ensures
        r@ == before_slash(s@),
{
    let cs = chars_of(s);
    let mut k: usize = 0;
    while k < cs.len() && cs[k] != '/'
        invariant
            0 <= k <= cs@.len(),
            slash_from(cs@, 0) == slash_from(cs@, k as int),
        decreases cs.len() - k,
    {
        k += 1;
    }
    string_of_range(&cs, 0, k)
}

/// The `host[:port]` the proxy connects to for `url`: the URL without an
/// `https://` or `http://` scheme, up to the first `/`.
pub open spec fn spec_connect_host(url: Seq<char>) -> Seq<char> {
    if has_prefix(url, "https://"@) {
        before_slash(url.skip(8))
    } else if has_prefix(url, "http://"@) {
        before_slash(url.skip(7))
    } else {
        before_slash(url)
    }
}

/// Extract the `host[:port]` to connect to from the upstream URL.
pub fn extract_host(url: &str) -> (r: String)
    ensures
        r@ == spec_connect_host(url@),
{
    proof {
        reveal_strlit("https://");
        reveal_strlit("http://");
    }
    let cs = chars_of(url);
    let https = chars_of("https://");
    let http = chars_of("http://");
    let start: usize = if starts_with_chars(&cs, &https) {
        8
    } else if starts_with_chars(&cs, &http) {
        7
    } else {
        0
    };
    assert(cs@.skip(0) =~= cs@);
    let ghost rest = cs@.skip(start as int);
    let mut k: usize = start;
    while k < cs.len() && cs[k] != '/'
        invariant
            start <= k <= cs@.len(),
            rest == cs@.skip(start as int),
            slash_from(rest, 0) == slash_from(rest, k - start),
        decreases cs.len() - k,
    {
        assert(rest[k - start] == cs@[k as int]);
        k += 1;
    }
    let r = string_of_range(&cs, start, k);
    assert(r@ =~= rest.take(k - start));
    r
}

/// The upstream URL for a request: `upstream` without trailing slashes,
/// followed by the request's path and query (`/` when there is none).
pub open spec fn spec_upstream_target(upstream: Seq<char>, path_and_query: Option<Seq<char>>) -> Seq<char> {
    upstream.take(trimmed_len(upstream, upstream.len() as int)) + match path_and_query {
        Some(p) => p,
        None => "/"@,
    }
}

/// Length of `s.take(n)` without its trailing slashes.
pub open spec fn trimmed_len(s: Seq<char>, n: int) -> int
    decreases n,
{
    if n <= 0 || n > s.len() {
        if n > s.len() { s.len() as int } else { 0 }
    } else if s[n - 1] == '/' {
        trimmed_len(s, n - 1)
    } else {
        n
    }
}

/// Build the upstream URL of a relative request.
pub fn upstream_target(upstream: &str, path_and_query: Option<&str>) -> (r: String)
    ensures
        r@ == spec_upstream_target(upstream@, match path_and_query {
            Some(p) => Some(p@),
            None => None,
        }),
{
    let cs = chars_of(upstream);
    let mut n = cs.len();
    while n > 0 && cs[n - 1] == '/'
        invariant
            n <= cs@.len(),
            trimmed_len(cs@, cs@.len() as int) == trimmed_len(cs@, n as int),
        decreases n,
    {
        n -= 1;
    }
    let mut r = string_of_range(&cs, 0, n);
    match path_and_query {
        Some(p) => r.append(p),
        None => r.append("/"),
    }
    r
}

/// Which header carries the upstream key.
#[derive(Debug, Clone, Copy, PartialEq, Eq, Structural)]
pub enum AuthHeader {
    /// `x-api-key: <key>` (Anthropic).
    ApiKey,
    /// `Authorization: Bearer <key>` (everything else).
    Bearer,
}

/// The credential header for an upstream: none without a key, `x-api-key`
/// for Anthropic, a bearer token otherwise.
pub open spec fn spec_auth_header(protocol: Seq<char>, key: Seq<char>) -> Option<(AuthHeader, Seq<char>)> {
    if key.len() == 0 {
        None
    } else if protocol == "anthropic"@ {
        Some((AuthHeader::ApiKey, key))
    } else {
        Some((AuthHeader::Bearer, "Bearer "@ + key))
    }
}

/// The credential header (kind and value) to add for `protocol`.
pub fn auth_header(protocol: &str, key: &Secret) -> (r: Option<(AuthHeader, String)>)
    ensures
        r matches Some((k, v)) ==> spec_auth_header(protocol@, key@) == Some((k, v@)),
        r is None ==> spec_auth_header(protocol@, key@) is None,
{
    if key.is_empty() {
        return None;
    }
    let p = chars_of(protocol);
    let a = chars_of("anthropic");
    let is_anthropic = p.len() == a.len() && crate::text::matches_at(&p, &a, 0);
    proof {
        assert(p@.subrange(0, a@.len() as int) =~= p@ <== p@.len() == a@.len());
        if p@ == a@ {
            assert(p@.subrange(0, a@.len() as int) =~= p@);
        }
    }
    if is_anthropic {
        Some((AuthHeader::ApiKey, key.as_str().to_owned()))
    } else {
        let mut v = "Bearer ".to_owned();
        v.append(key.as_str());
        Some((AuthHeader::Bearer, v))
    }
}

/// Requests other than GET and HEAD carry their body upstream.
pub fn forwards_body(method: &str) -> (b: bool)
    ensures
        b == !(method@ == "GET"@ || method@ == "HEAD"@),
{
    let m = chars_of(method);
    let get = chars_of("GET");
    let head = chars_of("HEAD");
    let is_get = m.len() == get.len() && crate::text::matches_at(&m, &get, 0);
    let is_head = m.len() == head.len() && crate::text::matches_at(&m, &head, 0);
    proof {
        if m@.len() == get@.len() {
            assert(m@.subrange(0, get@.len() as int) =~= m@);
        }
        if m@.len() == head@.len() {
            assert(m@.subrange(0, head@.len() as int) =~= m@);
        }
    }
    !(is_get || is_head)
}

/// Block mode replaces a response that the inspector flagged at severity
/// 60 or more; monitor mode never replaces one.
pub open spec fn spec_replaces(clean: bool, mode: Mode, severity: u32) -> bool {
    !clean && mode == Mode::Block && severity >= 60
}

/// Does the stub replace this response?
pub fn replaces_response(clean: bool, mode: Mode, severity: u32) -> (b: bool)
    ensures
        b == spec_replaces(clean, mode, severity),
{
    !clean && matches!(mode, Mode::Block) && severity >= 60
}

/// The error shape of the stub that replaces a blocked response.
#[derive(Debug, Clone, Copy, PartialEq, Eq, Structural)]
pub enum StubShape {
    /// `{"type": "error", "error": {...}}`, as the Anthropic API answers.
    Anthropic,
    /// `{"error": {...}}`, as OpenAI-style APIs answer.
    OpenAi,
}

/// The stub shape for a protocol: Anthropic's for `anthropic`, the
/// OpenAI-style one for every other protocol.
pub fn stub_shape(protocol: &str) -> (k: StubShape)
    ensures
        k == (if protocol@ == "anthropic"@ { StubShape::Anthropic } else { StubShape::OpenAi }),
{
    let p = protocol.to_owned();
    let a = "anthropic".to_owned();
    if p == a {
        StubShape::Anthropic
    } else {
        StubShape::OpenAi
    }
}

/// The tools a client declared in a request body, as the proxy reads
/// them: none yet, so every `tool_use` from upstream counts as
/// unsolicited — the safer default.
pub fn parse_declared_tools(body: &[u8], protocol: &str) -> (r: Vec<String>)
    ensures
        r@.len() == 0,
{
    let _ = (body, protocol);
    Vec::new()
}

/// What the proxy does with one client request.
pub struct RequestPlan {
    /// The URL to send the request to; `None` keeps the request's own
    /// absolute URL.
    pub target: Option<String>,
    /// The adapter that reads the response.
    pub adapter: AdapterKind,
    /// The credential header added, if any.
    pub auth: Option<(AuthHeader, String)>,
    /// Whether the request body is sent on.
    pub forward_body: bool,
    /// The `host[:port]` to connect to.
    pub connect_host: String,
}

/// Plan the forwarding of a request: a relative request goes to the
/// upstream, an absolute one where it points; the adapter is picked from
/// the upstream and the request's content type; the credential follows the
/// adapter's protocol; GET and HEAD go without a body; the connection goes
/// to the upstream's host.
pub fn plan_request(
    upstream: &str,
    uri_is_absolute: bool,
    path_and_query: Option<&str>,
    content_type: &str,
    method: &str,
    key: &Secret,
) -> (p: RequestPlan)
    ensures
        uri_is_absolute ==> p.target is None,
        !uri_is_absolute ==> (p.target matches Some(t) && t@ == spec_upstream_target(upstream@, match path_and_query {
            Some(q) => Some(q@),
            None => None,
        })),
        p.adapter == spec_pick(upstream@, content_type@),
        match p.auth {
            Some((k, v)) => spec_auth_header(adapter_name(p.adapter), key@) == Some((k, v@)),
            None => spec_auth_header(adapter_name(p.adapter), key@) is None,
        },
        p.forward_body == !(method@ == "GET"@ || method@ == "HEAD"@),
        p.connect_host@ == spec_connect_host(upstream@),
{
    let target = if uri_is_absolute {
        None
    } else {
        Some(upstream_target(upstream, path_and_query))
    };
    let adapter = pick(upstream, content_type);
    let auth = auth_header(adapter.name(), key);
    RequestPlan {
        target,
        adapter,
        auth,
        forward_body: forwards_body(method),
        connect_host: extract_host(upstream),
    }
}

/// Monitor mode only logs: it never replaces a response.
pub proof fn law_monitor_mode_never_replaces(clean: bool, severity: u32)
    ensures
        !spec_replaces(clean, Mode::Monitor, severity),
{
}

/// A clean response always reaches the client unchanged.
pub proof fn law_clean_response_is_forwarded(mode: Mode, severity: u32)
    ensures
        !spec_replaces(true, mode, severity),
{
}

/// Block mode replaces every flagged response of severity 60 or more.
pub proof fn law_block_mode_replaces_severe(severity: u32)
    requires
        severity >= 60,
    ensures
        spec_replaces(false, Mode::Block, severity),
{
}

/// With a non-empty key every request carries a credential: `x-api-key`
/// with the key for the Anthropic protocol, `Authorization: Bearer <key>`
/// for every other protocol; without a key none is added.
pub proof fn law_key_always_sent(protocol: Seq<char>, key: Seq<char>)
    ensures
        key.len() == 0 ==> spec_auth_header(protocol, key) is None,
        key.len() > 0 && protocol == "anthropic"@ ==> spec_auth_header(protocol, key) == Some((AuthHeader::ApiKey, key)),
        key.len() > 0 && protocol != "anthropic"@ ==> spec_auth_header(protocol, key) == Some(
            (AuthHeader::Bearer, "Bearer "@ + key),
        ),
{
}

/// A planned request with a non-empty key always carries a credential:
/// `x-api-key` exactly when the Anthropic adapter is picked, a bearer
/// token for the OpenAI and passthrough adapters alike.
pub proof fn law_plan_sends_key(upstream: Seq<char>, content_type: Seq<char>, key: Seq<char>)
    requires
        key.len() > 0,
    ensures
        spec_pick(upstream, content_type) == AdapterKind::Anthropic ==> spec_auth_header(
            adapter_name(spec_pick(upstream, content_type)),
            key,
        ) == Some((AuthHeader::ApiKey, key)),
        spec_pick(upstream, content_type) != AdapterKind::Anthropic ==> spec_auth_header(
            adapter_name(spec_pick(upstream, content_type)),
            key,
        ) == Some((AuthHeader::Bearer, "Bearer "@ + key)),
{
    reveal_strlit("anthropic");
    reveal_strlit("openai");
    reveal_strlit("passthrough");
    assert("anthropic"@.len() != "openai"@.len());
    assert("anthropic"@[0] != "passthrough"@[0]);
}

} // verus!
