//! Forensics records: one JSON line per verdict.
//!
//! The library builds each entry from plain values; the application
//! serialises it and appends the line to the log file (or to stderr).
use vstd::prelude::*;
use vstd::string::StringSliceAdditionalSpecFns;
use vstd::utf8::{encode_scalar, encode_utf8};

use crate::text::{chars_of, push_char, string_of_range};

verus! {

/// Longest snippet of the inspected buffer kept in a record, in bytes.
pub const SNIPPET_BYTES: usize = 512;

/// One line of the forensics log.
pub struct LogEntry {
    pub ts: String,
    pub protocol: String,
    pub mode: String,
    pub severity: u32,
    pub categories: String,
    pub tool_name: Option<String>,
    pub unsolicited_tool_use: bool,
    pub snippet: String,
}

/// The number of UTF-8 bytes of `s`.
pub open spec fn utf8_len(s: Seq<char>) -> nat {
    encode_utf8(s).len()
}

/// The longest prefix of `s` that fits in `n` bytes of UTF-8: it ends on a
/// character boundary at or before byte `n`.
pub open spec fn fitting_prefix(s: Seq<char>, n: nat) -> Seq<char>
    decreases s.len(),
{
    if s.len() == 0 || utf8_len(s) <= n {
        s
    } else {
        fitting_prefix(s.drop_last(), n)
    }
}

/// `s` when it fits in `n` bytes of UTF-8; otherwise its longest prefix
/// that fits, followed by `…`.
pub open spec fn spec_truncate(s: Seq<char>, n: nat) -> Seq<char> {
    if utf8_len(s) <= n {
        s
    } else {
        fitting_prefix(s, n).push('…')
    }
}

/// Appending a character appends its encoding.
proof fn lemma_encode_push(s: Seq<char>, c: char)
    ensures
        encode_utf8(s.push(c)) == encode_utf8(s) + encode_scalar(c as u32),
    decreases s.len(),
{
    if s.len() == 0 {
        assert(s.push(c).drop_first() =~= Seq::<char>::empty());
        assert(encode_utf8(Seq::<char>::empty()) =~= Seq::<u8>::empty());
        assert(encode_scalar(c as u32) + Seq::<u8>::empty() =~= encode_scalar(c as u32));
        assert(encode_utf8(s) =~= Seq::<u8>::empty());
        assert(Seq::<u8>::empty() + encode_scalar(c as u32) =~= encode_scalar(c as u32));
    } else {
        assert(s.push(c).drop_first() =~= s.drop_first().push(c));
        lemma_encode_push(s.drop_first(), c);
        assert(encode_scalar(s[0] as u32) + (encode_utf8(s.drop_first()) + encode_scalar(c as u32))
            =~= (encode_scalar(s[0] as u32) + encode_utf8(s.drop_first())) + encode_scalar(c as u32));
    }
}

/// A longer prefix takes at least as many bytes.
proof fn lemma_prefix_len_grows(s: Seq<char>, i: int, j: int)
    requires
        0 <= i <= j <= s.len(),
    ensures
        utf8_len(s.take(i)) <= utf8_len(s.take(j)),
    decreases j - i,
{
    if i < j {
        lemma_prefix_len_grows(s, i, j - 1);
        assert(s.take(j) =~= s.take(j - 1).push(s[j - 1]));
        lemma_encode_push(s.take(j - 1), s[j - 1]);
    }
}

/// `fitting_prefix` is a prefix of `s` that fits, and one more character
/// would not fit.
proof fn lemma_fitting_prefix(s: Seq<char>, n: nat)
    ensures
        fitting_prefix(s, n).len() <= s.len(),
        fitting_prefix(s, n) == s.take(fitting_prefix(s, n).len() as int),
        utf8_len(fitting_prefix(s, n)) <= n,
        fitting_prefix(s, n).len() < s.len() ==> utf8_len(s.take(fitting_prefix(s, n).len() + 1int)) > n,
    decreases s.len(),
{
    if s.len() == 0 {
        assert(s.take(0) =~= s);
        assert(encode_utf8(s) =~= Seq::<u8>::empty());
    } else if utf8_len(s) <= n {
        assert(s.take(s.len() as int) =~= s);
    } else {
        let d = s.drop_last();
        lemma_fitting_prefix(d, n);
        let k = fitting_prefix(d, n).len() as int;
        assert(d.take(k) =~= s.take(k));
        if k < d.len() {
            assert(d.take(k + 1) =~= s.take(k + 1));
        } else {
            assert(s.take(k + 1) =~= s);
        }
    }
}

/// A prefix that fits while one more character would not is the fitting
/// prefix.
proof fn lemma_fitting_prefix_unique(s: Seq<char>, n: nat, k: int)
    requires
        0 <= k <= s.len(),
        utf8_len(s.take(k)) <= n,
        k < s.len() ==> utf8_len(s.take(k + 1)) > n,
    ensures
        fitting_prefix(s, n) == s.take(k),
{
    lemma_fitting_prefix(s, n);
    let f = fitting_prefix(s, n).len() as int;
    if f < k {
        lemma_prefix_len_grows(s, f + 1, k);
    } else if k < f {
        lemma_prefix_len_grows(s, k + 1, f);
    }
}

/// The number of UTF-8 bytes of `c`.
fn char_width(c: char) -> (w: usize)
    ensures
        w == encode_scalar(c as u32).len(),
        1 <= w <= 4,
{
    let v = c as u32;
    if v <= 0x7f {
        1
    } else if v <= 0x7ff {
        2
    } else if v <= 0xffff {
        3
    } else {
        4
    }
}

/// Cut `s` to at most `n` bytes of UTF-8, at the last character boundary
/// that fits, marking a cut with `…`.
pub fn truncate(s: &str, n: usize) -> (r: String)
    ensures
        r@ == spec_truncate(s@, n as nat),
{
    let bytes = s.as_bytes();
    proof {
        assert(s.spec_bytes() == encode_utf8(s@));
    }
    if bytes.len() <= n {
        return s.to_owned();
    }
    let cs = chars_of(s);
    let mut k: usize = 0;
    let mut used: usize = 0;
    proof {
        assert(cs@.take(0) =~= Seq::<char>::empty());
        assert(encode_utf8(Seq::<char>::empty()) =~= Seq::<u8>::empty());
    }
    while k < cs.len()
        invariant_except_break
            k <= cs@.len(),
            used <= n,
            used == utf8_len(cs@.take(k as int)),
        ensures
            k <= cs@.len(),
            used == utf8_len(cs@.take(k as int)),
            used <= n,
            k < cs@.len() ==> utf8_len(cs@.take(k + 1)) > n,
        decreases cs@.len() - k,
    {
        let w = char_width(cs[k]);
        proof {
            assert(cs@.take(k + 1) =~= cs@.take(k as int).push(cs@[k as int]));
            lemma_encode_push(cs@.take(k as int), cs@[k as int]);
        }
        if w > n - used {
            break;
        }
        used = used + w;
        k = k + 1;
    }
    proof {
        lemma_fitting_prefix_unique(cs@, n as nat, k as int);
    }
    let mut t = string_of_range(&cs, 0, k);
    assert(cs@.subrange(0, k as int) =~= cs@.take(k as int));
    push_char(&mut t, '…');
    t
}

impl LogEntry {
    /// The entry for one inspected response: `snippet` is the inspected
    /// buffer cut to `SNIPPET_BYTES`.
    pub fn verdict(
        ts: String,
        protocol: &str,
        mode: &str,
        severity: u32,
        categories: String,
        tool_name: Option<String>,
        unsolicited_tool_use: bool,
        buffer: &str,
    ) -> (e: LogEntry)
        ensures
            e.ts@ == ts@,
            e.protocol@ == protocol@,
            e.mode@ == mode@,
            e.severity == severity,
            e.categories@ == categories@,
            e.tool_name == tool_name,
            e.unsolicited_tool_use == unsolicited_tool_use,
            e.snippet@ == spec_truncate(buffer@, SNIPPET_BYTES as nat),
    {
        LogEntry {
            ts,
            protocol: protocol.to_owned(),
            mode: mode.to_owned(),
            severity,
            categories,
            tool_name,
            unsolicited_tool_use,
            snippet: truncate(buffer, SNIPPET_BYTES),
        }
    }

    /// A note about an event that was forwarded without inspection: its
    /// mode is the word scan, its severity 0, its message stands in
    /// `categories`, and it names no tool and keeps no snippet.
    pub fn note(ts: String, protocol: &str, message: &str) -> (e: LogEntry)
        ensures
            e.ts@ == ts@,
            e.protocol@ == protocol@,
            e.mode@ == "scan"@,
            e.severity == 0,
            e.categories@ == message@,
            e.tool_name is None,
            !e.unsolicited_tool_use,
            e.snippet@.len() == 0,
    {
        LogEntry {
            ts,
            protocol: protocol.to_owned(),
            mode: "scan".to_owned(),
            severity: 0,
            categories: message.to_owned(),
            tool_name: None,
            unsolicited_tool_use: false,
            snippet: String::new(),
        }
    }
}

/// A snippet is the text itself when it fits; otherwise the longest
/// prefix of the text that fits in `n` bytes of UTF-8 (one more character
/// would not fit), followed by `…`.
pub proof fn law_truncate_keeps_a_prefix(s: Seq<char>, n: nat)
    ensures
        utf8_len(s) <= n ==> spec_truncate(s, n) == s,
        utf8_len(s) > n ==> exists|k: int|
            0 <= k < s.len() && spec_truncate(s, n) == (#[trigger] s.take(k)).push('…') && utf8_len(s.take(k)) <= n
                && utf8_len(s.take(k + 1)) > n,
{
    if utf8_len(s) > n {
        lemma_fitting_prefix(s, n);
        let k = fitting_prefix(s, n).len() as int;
        if k == s.len() {
            assert(s.take(k) =~= s);
        }
        assert(spec_truncate(s, n) == s.take(k).push('…'));
    }
}

} // verus!
