//! The tools a client declared in its request.
//!
//! A `tool_use` naming a tool that the client never declared is treated as
//! injected (high severity); a declared one is still scanned, since declared
//! tools can be tricked into running malicious arguments.
//!
//! Anthropic requests declare `tools: [{name: "Bash", ...}]`; OpenAI ones
//! `tools: [{type: "function", function: {name: "get_weather"}}]`.
use vstd::prelude::*;

use crate::json::{json_get, json_str, JsonValue};
use crate::seq_util::{concat_map, lemma_concat_map_all, lemma_concat_map_contains, lemma_concat_map_take, lemma_take_full};
use crate::text::{contains_str, dedup, distinct, lemma_dedup, strs};

verus! {

/// The name a tool declaration gives: its own `name` string, else the
/// `name` string of its `function` member.
pub open spec fn tool_name(t: JsonValue) -> Option<Seq<char>> {
    match json_str(json_get(t, "name"@)) {
        Some(n) => Some(n),
        None => match json_get(t, "function"@) {
            Some(f) => json_str(json_get(f, "name"@)),
            None => None,
        },
    }
}

/// The name of a declaration as a list of at most one name.
pub open spec fn name_list(t: JsonValue) -> Seq<Seq<char>> {
    match tool_name(t) {
        Some(n) => seq![n],
        None => Seq::empty(),
    }
}

/// The tools declared by a request body: the names in its `tools` array,
/// each once, in order of first appearance. Nothing when the body was not
/// JSON or has no `tools` array.
pub open spec fn spec_declared_tools(body: Option<JsonValue>) -> Seq<Seq<char>> {
    match body {
        Some(v) => match json_get(v, "tools"@) {
            Some(JsonValue::Array(ts)) => dedup(concat_map(ts@, |t: JsonValue| name_list(t))),
            _ => Seq::empty(),
        },
        None => Seq::empty(),
    }
}

/// The name a tool declaration gives, if any.
fn declared_name(t: &JsonValue) -> (r: Option<String>)
    ensures
        match r {
            Some(n) => tool_name(*t) == Some(n@),
            None => tool_name(*t) is None,
        },
{
    proof {
        reveal_strlit("name");
        reveal_strlit("function");
    }
    if let Some(v) = t.get("name") {
        if let Some(n) = v.as_str() {
            return Some(n.clone());
        }
    }
    if let Some(f) = t.get("function") {
        if let Some(v) = f.get("name") {
            if let Some(n) = v.as_str() {
                return Some(n.clone());
            }
        }
    }
    None
}

/// The tool names the client declared in its request body (`None` when the
/// body was not JSON). The protocol does not change how they are read.
pub fn parse_request_tools(body: Option<&JsonValue>, protocol: &str) -> (r: Vec<String>)
    ensures
        strs(r@) == spec_declared_tools(match body {
            Some(v) => Some(*v),
            None => None,
        }),
{
    let _ = protocol;
    let v = match body {
        Some(v) => v,
        None => {
            let e: Vec<String> = Vec::new();
            assert(strs(e@) =~= Seq::<Seq<char>>::empty());
            return e;
        },
    };
    proof {
        reveal_strlit("tools");
    }
    let ts = match v.get("tools") {
        Some(JsonValue::Array(ts)) => ts,
        _ => {
            let e: Vec<String> = Vec::new();
            assert(strs(e@) =~= Seq::<Seq<char>>::empty());
            return e;
        },
    };
    let ghost f = |t: JsonValue| name_list(t);
    let mut out: Vec<String> = Vec::new();
    let mut i: usize = 0;
    while i < ts.len()
        invariant
            i <= ts@.len(),
            f == (|t: JsonValue| name_list(t)),
            strs(out@) == dedup(concat_map(ts@.take(i as int), f)),
        decreases ts@.len() - i,
    {
        proof {
            lemma_concat_map_take(ts@, f, i as int);
        }
        let ghost before = concat_map(ts@.take(i as int), f);
        match declared_name(&ts[i]) {
            Some(n) => {
                proof {
                    assert(f(ts@[i as int]) =~= seq![n@]);
                    assert((before + seq![n@]).drop_last() =~= before);
                    assert((before + seq![n@]).last() == n@);
                }
                if !contains_str(&out, &n) {
                    proof {
                        assert(strs(out@.push(n)) =~= strs(out@).push(n@));
                    }
                    out.push(n);
                }
            },
            None => {
                assert(before + f(ts@[i as int]) =~= before);
            },
        }
        i += 1;
    }
    proof {
        lemma_take_full(ts@);
    }
    out
}

/// The declared tools form a set: each name once, and exactly the names
/// that the declarations of the `tools` array give.
pub proof fn law_declared_tools_are_a_set(body: JsonValue, ts: Vec<JsonValue>)
    requires
        json_get(body, "tools"@) == Some(JsonValue::Array(ts)),
    ensures
        distinct(spec_declared_tools(Some(body))),
        forall|x: Seq<char>|
            spec_declared_tools(Some(body)).contains(x) <==> exists|k: int|
                0 <= k < ts@.len() && tool_name(#[trigger] ts@[k]) == Some(x),
{
    let f = |t: JsonValue| name_list(t);
    let names = concat_map(ts@, f);
    lemma_dedup(names);
    let p = |y: Seq<char>| exists|k: int| 0 <= k < ts@.len() && tool_name(#[trigger] ts@[k]) == Some(y);
    assert forall|i: int, k: int| 0 <= i < ts@.len() && 0 <= k < f(ts@[i]).len() implies #[trigger] p(
        f(ts@[i])[k],
    ) by {
        assert(tool_name(ts@[i]) == Some(f(ts@[i])[k]));
    }
    lemma_concat_map_all(ts@, f, p);
    assert(spec_declared_tools(Some(body)) == dedup(names));
    assert forall|x: Seq<char>| spec_declared_tools(Some(body)).contains(x) <==> (exists|k: int|
        0 <= k < ts@.len() && tool_name(#[trigger] ts@[k]) == Some(x)) by {
        assert(dedup(names).contains(x) == names.contains(x));
        assert(p(x) == exists|k: int| 0 <= k < ts@.len() && tool_name(#[trigger] ts@[k]) == Some(x));
        if names.contains(x) {
            let j = choose|j: int| 0 <= j < names.len() && names[j] == x;
            assert(p(names[j]));
        }
        if p(x) {
            let k = choose|k: int| 0 <= k < ts@.len() && tool_name(#[trigger] ts@[k]) == Some(x);
            assert(f(ts@[k])[0] == x);
            lemma_concat_map_contains(ts@, f, k, 0);
        }
    }
}

} // verus!
