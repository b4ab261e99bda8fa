//! MCP (Model Context Protocol) guard.
//!
//! A malicious remote MCP server can answer a `tools/call` with text that
//! tells the agent to run shell commands. The guard surfaces the text blocks
//! of such a JSON-RPC 2.0 result so the inspector rules and the chain
//! detector see them before the agent acts on them.
//!
//! The application decodes a frame with serde into an `McpFrame`; the
//! library decides what text it carries.
use vstd::prelude::*;

use crate::seq_util::{concat_map, lemma_concat_map_take, lemma_take_full};
use crate::text::push_char;

verus! {

/// One entry of `result.content`: its `type` and, for text blocks, its text.
pub struct McpContent {
    pub kind: String,
    pub text: Option<String>,
}

/// A decoded JSON-RPC frame: its `jsonrpc` version, if given, and the
/// entries of `result.content` when the frame has a result of that shape.
pub struct McpFrame {
    pub jsonrpc: Option<String>,
    pub content: Option<Vec<McpContent>>,
}

/// The text an entry contributes: a text block's text and a newline.
pub open spec fn block_text(c: McpContent) -> Seq<char> {
    if c.kind@ == "text"@ && c.text is Some {
        c.text->0@ + "\n"@
    } else {
        Seq::empty()
    }
}

/// The text blocks of a frame: `None` unless it is JSON-RPC 2.0 with a
/// result whose content holds at least one text block; otherwise each text
/// followed by a newline, in order.
pub open spec fn spec_extract_text_blocks(frame: McpFrame) -> Option<Seq<char>> {
    match frame.jsonrpc {
        Some(v) if v@ == "2.0"@ => match frame.content {
            Some(cs) => {
                let joined = concat_map(cs@, |c: McpContent| block_text(c));
                if joined.len() == 0 {
                    None
                } else {
                    Some(joined)
                }
            },
            None => None,
        },
        _ => None,
    }
}

/// Does `s` hold exactly `lit`?
fn is_literal(s: &String, lit: &str) -> (b: bool)
    ensures
        b == (s@ == lit@),
{
    let l = lit.to_owned();
    *s == l
}

/// The text blocks of a `tools/call` result, joined, one newline after each.
pub fn extract_text_blocks(frame: &McpFrame) -> (r: Option<String>)
    ensures
        match r {
            Some(t) => spec_extract_text_blocks(*frame) == Some(t@),
            None => spec_extract_text_blocks(*frame) is None,
        },
{
    let ok = match &frame.jsonrpc {
        Some(v) => is_literal(v, "2.0"),
        None => false,
    };
    if !ok {
        return None;
    }
    let cs = match &frame.content {
        Some(cs) => cs,
        None => return None,
    };
    let ghost f = |c: McpContent| block_text(c);
    let mut joined = String::new();
    let mut i: usize = 0;
    while i < cs.len()
        invariant
            i <= cs@.len(),
            f == (|c: McpContent| block_text(c)),
            joined@ == concat_map(cs@.take(i as int), f),
        decreases cs@.len() - i,
    {
        proof {
            lemma_concat_map_take(cs@, f, i as int);
            reveal_strlit("text");
            reveal_strlit("\n");
        }
        let c = &cs[i];
        let is_text = is_literal(&c.kind, "text");
        if is_text {
            match &c.text {
                Some(t) => {
                    joined.append(t.as_str());
                    push_char(&mut joined, '\n');
                    assert(f(*c) =~= t@.push('\n'));
                },
                None => {
                    assert(joined@ + f(*c) =~= joined@);
                },
            }
        } else {
            assert(joined@ + f(*c) =~= joined@);
        }
        i += 1;
    }
    proof {
        lemma_take_full(cs@);
    }
    if joined.as_str().is_empty() {
        None
    } else {
        Some(joined)
    }
}

} // verus!
