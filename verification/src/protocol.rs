//! Protocol adapters — normalise provider-specific wire formats.
//!
//! Each upstream dialect has an adapter; the proxy picks one by upstream URL
//! and content type, the inspector works on what the adapter surfaces.
//! Streaming and body plumbing live with the I/O layer; what is decided
//! here is which adapter applies and which content types it accepts.
use vstd::prelude::*;

use crate::text::{has_sub, str_contains};

pub mod grpc;

verus! {

/// Anthropic Messages API (SSE: `message_start`, `content_block_delta`, …).
pub struct AnthropicAdapter;

/// OpenAI Chat Completions (SSE: `data: {choices:[{delta:{...}}]}`).
pub struct OpenAiAdapter;

/// Unknown protocol — forwards untouched. Detection engine still scans text.
pub struct PassthroughAdapter;

/// Which adapter handles an upstream.
#[derive(Debug, Clone, Copy, PartialEq, Eq, Structural)]
pub enum AdapterKind {
    Anthropic,
    OpenAi,
    Passthrough,
}

/// The adapter for an upstream URL and response content type: Anthropic
/// when either names anthropic, else OpenAI when the URL names openai.com
/// or `/v1/` or the content type names openai, else passthrough.
pub open spec fn spec_pick(upstream: Seq<char>, content_type: Seq<char>) -> AdapterKind {
    if has_sub(upstream, "anthropic.com"@) || has_sub(content_type, "anthropic"@) {
        AdapterKind::Anthropic
    } else if has_sub(upstream, "openai.com"@) || has_sub(content_type, "openai"@) || has_sub(upstream, "/v1/"@) {
        AdapterKind::OpenAi
    } else {
        AdapterKind::Passthrough
    }
}

/// Pick the adapter by upstream URL / content-type, falling back to the
/// passthrough adapter that forwards bytes untouched.
pub fn pick(upstream: &str, content_type: &str) -> (k: AdapterKind)
    ensures
        k == spec_pick(upstream@, content_type@),
{
    if str_contains(upstream, "anthropic.com") || str_contains(content_type, "anthropic") {
        AdapterKind::Anthropic
    } else if str_contains(upstream, "openai.com") || str_contains(content_type, "openai") || str_contains(upstream, "/v1/") {
        AdapterKind::OpenAi
    } else {
        AdapterKind::Passthrough
    }
}

/// The log identifier of an adapter.
pub open spec fn adapter_name(k: AdapterKind) -> Seq<char> {
    match k {
        AdapterKind::Anthropic => "anthropic"@,
        AdapterKind::OpenAi => "openai"@,
        AdapterKind::Passthrough => "passthrough"@,
    }
}

impl AdapterKind {
    /// Identifier for logs.
    pub fn name(&self) -> (s: &'static str)
        ensures
            s@ == adapter_name(*self),
    {
        match self {
            AdapterKind::Anthropic => "anthropic",
            AdapterKind::OpenAi => "openai",
            AdapterKind::Passthrough => "passthrough",
        }
    }
}

impl PassthroughAdapter {
    /// Identifier for logs.
    pub fn name(&self) -> (s: &'static str)
        ensures
            s@ == "passthrough"@,
    {
        "passthrough"
    }

    /// Accepts every content type.
    pub fn accepts(&self, _c: &str) -> (b: bool)
        ensures
            b,
    {
        true
    }
}

impl AnthropicAdapter {
    /// Identifier for logs.
    pub fn name(&self) -> (s: &'static str)
        ensures
            s@ == "anthropic"@,
    {
        "anthropic"
    }

    /// Accepts content types naming anthropic or an event stream.
    pub fn accepts(&self, c: &str) -> (b: bool)
        ensures
            b == (has_sub(c@, "anthropic"@) || has_sub(c@, "event-stream"@)),
    {
        str_contains(c, "anthropic") || str_contains(c, "event-stream")
    }
}

impl OpenAiAdapter {
    /// Identifier for logs.
    pub fn name(&self) -> (s: &'static str)
        ensures
            s@ == "openai"@,
    {
        "openai"
    }

    /// Accepts content types naming openai or an event stream.
    pub fn accepts(&self, c: &str) -> (b: bool)
        ensures
            b == (has_sub(c@, "openai"@) || has_sub(c@, "event-stream"@)),
    {
        str_contains(c, "openai") || str_contains(c, "event-stream")
    }
}

} // verus!
