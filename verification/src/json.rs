//! A JSON document as plain values, as far as the proxy reads one.
//!
//! The application parses request and response bodies with serde_json and
//! hands the library the resulting tree in this form.
use vstd::prelude::*;

verus! {

/// A JSON value. Numbers keep their text; an object keeps its members in
/// order. A decoded object holds each key once (`keys_once`); where a key
/// repeats, `get` returns the first member with it.
pub enum JsonValue {
    Null,
    Bool(bool),
    Number(String),
    Str(String),
    Array(Vec<JsonValue>),
    Object(Vec<(String, JsonValue)>),
}

/// No two members of an object share a key, as in a decoded JSON object.
pub open spec fn keys_once(entries: Seq<(String, JsonValue)>) -> bool {
    forall|i: int, j: int| 0 <= i < j < entries.len() ==> (#[trigger] entries[i]).0@ != (#[trigger] entries[j]).0@
}

/// When keys occur once, the member found for `key` is the only one.
pub proof fn lemma_member_unique(entries: Seq<(String, JsonValue)>, key: Seq<char>, i: int)
    requires
        keys_once(entries),
        0 <= i < entries.len(),
        entries[i].0@ == key,
    ensures
        member(entries, key) == Some(entries[i].1),
    decreases entries.len(),
{
    if i > 0 {
        assert(entries[0].0@ != key) by {
            assert(entries[0].0@ != entries[i].0@);
        }
        let rest = entries.drop_first();
        assert forall|a: int, b: int| 0 <= a < b < rest.len() implies (#[trigger] rest[a]).0@ != (#[trigger] rest[b]).0@ by {
            assert(rest[a] == entries[a + 1] && rest[b] == entries[b + 1]);
        }
        assert(rest[i - 1] == entries[i]);
        lemma_member_unique(rest, key, i - 1);
    }
}

/// The value of the first member named `key`.
pub open spec fn member(entries: Seq<(String, JsonValue)>, key: Seq<char>) -> Option<JsonValue>
    decreases entries.len(),
{
    if entries.len() == 0 {
        None
    } else if entries[0].0@ == key {
        Some(entries[0].1)
    } else {
        member(entries.drop_first(), key)
    }
}

/// The member `key` of an object; nothing for any other value.
pub open spec fn json_get(v: JsonValue, key: Seq<char>) -> Option<JsonValue> {
    match v {
        JsonValue::Object(entries) => member(entries@, key),
        _ => None,
    }
}

/// The text of a string value.
pub open spec fn json_str(v: Option<JsonValue>) -> Option<Seq<char>> {
    match v {
        Some(JsonValue::Str(s)) => Some(s@),
        _ => None,
    }
}

impl JsonValue {
    /// The member `key` of an object (`None` for any other value); the
    /// first such member should the key repeat.
    pub fn get(&self, key: &str) -> (r: Option<&JsonValue>)
        ensures
            match r {
                Some(x) => json_get(*self, key@) == Some(*x),
                None => json_get(*self, key@) is None,
            },
    {
        match self {
            JsonValue::Object(entries) => {
                let k = key.to_owned();
                let mut i: usize = 0;
                assert(entries@.skip(0) =~= entries@);
                while i < entries.len()
                    invariant
                        i <= entries@.len(),
                        json_get(*self, key@) == member(entries@, key@),
                        k@ == key@,
                        member(entries@, key@) == member(entries@.skip(i as int), key@),
                    decreases entries@.len() - i,
                {
                    let ghost rest = entries@.skip(i as int);
                    assert(rest.drop_first() =~= entries@.skip(i + 1));
                    assert(rest[0] == entries@[i as int]);
                    if entries[i].0 == k {
                        return Some(&entries[i].1);
                    }
                    i += 1;
                }
                assert(entries@.skip(i as int) =~= Seq::<(String, JsonValue)>::empty());
                None
            },
            _ => None,
        }
    }

    /// The text of a string value.
    pub fn as_str(&self) -> (r: Option<&String>)
        ensures
            match r {
                Some(s) => json_str(Some(*self)) == Some(s@),
                None => json_str(Some(*self)) is None,
            },
    {
        match self {
            JsonValue::Str(s) => Some(s),
            _ => None,
        }
    }
}

} // verus!
