//! Character-level string helpers shared by the detectors.
//!
//! Strings are modelled by their `Seq<char>` view. Searching is done on
//! `Vec<char>` copies so that indexing is constant time.
use vstd::prelude::*;

verus! {

/// `needle` occurs in `hay` starting at position `i`.
pub open spec fn occurs_at(hay: Seq<char>, needle: Seq<char>, i: int) -> bool {
    &&& 0 <= i
    &&& i + needle.len() <= hay.len()
    &&& hay.subrange(i, i + needle.len()) == needle
}

/// `needle` occurs somewhere in `hay` (the empty needle occurs everywhere).
pub open spec fn has_sub(hay: Seq<char>, needle: Seq<char>) -> bool {
    exists|i: int| occurs_at(hay, needle, i)
}

/// `hay` begins with `prefix`.
pub open spec fn has_prefix(hay: Seq<char>, prefix: Seq<char>) -> bool {
    occurs_at(hay, prefix, 0)
}

/// `hay` ends with `suffix`.
pub open spec fn has_suffix(hay: Seq<char>, suffix: Seq<char>) -> bool {
    suffix.len() <= hay.len() && occurs_at(hay, suffix, hay.len() - suffix.len())
}

/// Full Unicode lowercase mapping of a string, as `str::to_lowercase` computes it.
pub uninterp spec fn lowercase(s: Seq<char>) -> Seq<char>;

/// Calls `str::to_lowercase`; the result is named `lowercase` of the input.
#[verifier::external_body]
pub(crate) fn to_lower(s: &str) -> (r: String)
    ensures
        r@ == lowercase(s@),
{
    s.to_lowercase()
}

/// Unicode `White_Space`, the property `char::is_whitespace` tests.
pub open spec fn is_white_space(c: char) -> bool {
    ||| '\u{9}' <= c <= '\u{d}'
    ||| c == ' '
    ||| c == '\u{85}'
    ||| c == '\u{a0}'
    ||| c == '\u{1680}'
    ||| '\u{2000}' <= c <= '\u{200a}'
    ||| c == '\u{2028}'
    ||| c == '\u{2029}'
    ||| c == '\u{202f}'
    ||| c == '\u{205f}'
    ||| c == '\u{3000}'
}

pub fn white_space(c: char) -> (b: bool)
    ensures
        b == is_white_space(c),
{
    ('\u{9}' <= c && c <= '\u{d}') || c == ' ' || c == '\u{85}' || c == '\u{a0}' || c == '\u{1680}'
        || ('\u{2000}' <= c && c <= '\u{200a}') || c == '\u{2028}' || c == '\u{2029}' || c == '\u{202f}'
        || c == '\u{205f}' || c == '\u{3000}'
}

/// A list of strings as character sequences.
pub open spec fn strs(v: Seq<String>) -> Seq<Seq<char>> {
    v.map_values(|s: String| s@)
}

/// `s` with later repeats of an element removed.
pub open spec fn dedup(s: Seq<Seq<char>>) -> Seq<Seq<char>>
    decreases s.len(),
{
    if s.len() == 0 {
        Seq::empty()
    } else {
        let d = dedup(s.drop_last());
        if d.contains(s.last()) { d } else { d.push(s.last()) }
    }
}

/// Is `s` one of `v`?
pub fn contains_str(v: &Vec<String>, s: &String) -> (b: bool)
    ensures
        b == strs(v@).contains(s@),
{
    let mut j: usize = 0;
    while j < v.len()
        invariant
            0 <= j <= v@.len(),
            forall|k: int| 0 <= k < j ==> strs(v@)[k] != s@,
        decreases v.len() - j,
    {
        if v[j] == *s {
            assert(strs(v@)[j as int] == s@);
            return true;
        }
        j += 1;
    }
    false
}

/// Calls `String::push`, which appends one character.
#[verifier::external_body]
pub(crate) fn push_char(s: &mut String, c: char)
    ensures
        final(s)@ == old(s)@.push(c),
{
    s.push(c)
}

/// The characters of `s`, in order.
pub fn chars_of(s: &str) -> (v: Vec<char>)
    ensures
        v@ == s@,
{
    let mut v: Vec<char> = Vec::new();
    for c in it: s.chars()
        invariant
            v@ == it.history(),
            it.seq() == s@,
    {
        v.push(c);
    }
    v
}

/// A `String` holding exactly the characters `cs[from..to]`.
pub fn string_of_range(cs: &Vec<char>, from: usize, to: usize) -> (s: String)
    requires
        from <= to <= cs.len(),
    ensures
        s@ == cs@.subrange(from as int, to as int),
{
    let mut s = String::new();
    let mut i = from;
    while i < to
        invariant
            from <= i <= to <= cs.len(),
            s@ == cs@.subrange(from as int, i as int),
        decreases to - i,
    {
        push_char(&mut s, cs[i]);
        assert(cs@.subrange(from as int, i + 1) =~= cs@.subrange(from as int, i as int).push(cs@[i as int]));
        i += 1;
    }
    s
}

/// Does `needle` occur in `hay` at position `i`?
pub fn matches_at(hay: &Vec<char>, needle: &Vec<char>, i: usize) -> (b: bool)
    ensures
        b == occurs_at(hay@, needle@, i as int),
{
    if i > hay.len() || needle.len() > hay.len() - i {
        return false;
    }
    let mut j: usize = 0;
    while j < needle.len()
        invariant
            i + needle.len() <= hay.len(),
            0 <= j <= needle.len(),
            forall|k: int| 0 <= k < j ==> hay@[i + k] == needle@[k],
        decreases needle.len() - j,
    {
        if hay[i + j] != needle[j] {
            assert(hay@.subrange(i as int, i + needle.len())[j as int] != needle@[j as int]);
            return false;
        }
        j += 1;
    }
    assert(hay@.subrange(i as int, i + needle.len()) =~= needle@);
    true
}

/// Does `needle` occur anywhere in `hay`?
pub fn contains_chars(hay: &Vec<char>, needle: &Vec<char>) -> (b: bool)
    ensures
        b == has_sub(hay@, needle@),
{
    if needle.len() > hay.len() {
        assert(!has_sub(hay@, needle@));
        return false;
    }
    let last = hay.len() - needle.len();
    let mut i: usize = 0;
    while i <= last
        invariant
            last + needle.len() == hay.len(),
            0 <= i <= last + 1,
            forall|k: int| 0 <= k < i ==> !occurs_at(hay@, needle@, k),
        ensures
            forall|k: int| 0 <= k <= last ==> !occurs_at(hay@, needle@, k),
        decreases last + 1 - i,
    {
        if matches_at(hay, needle, i) {
            return true;
        }
        if i == last {
            break;
        }
        i += 1;
    }
    assert forall|k: int| !occurs_at(hay@, needle@, k) by {
        if 0 <= k && k + needle@.len() <= hay@.len() {
            assert(k <= last);
        }
    }
    false
}

/// Does `hay` end with `suffix`?
pub fn ends_with_chars(hay: &Vec<char>, suffix: &Vec<char>) -> (b: bool)
    ensures
        b == has_suffix(hay@, suffix@),
{
    if suffix.len() > hay.len() {
        return false;
    }
    matches_at(hay, suffix, hay.len() - suffix.len())
}

/// Does `hay` begin with `prefix`?
pub fn starts_with_chars(hay: &Vec<char>, prefix: &Vec<char>) -> (b: bool)
    ensures
        b == has_prefix(hay@, prefix@),
{
    matches_at(hay, prefix, 0)
}

/// Does the string `hay` contain the string `needle`?
pub fn str_contains(hay: &str, needle: &str) -> (b: bool)
    ensures
        b == has_sub(hay@, needle@),
{
    let h = chars_of(hay);
    let n = chars_of(needle);
    contains_chars(&h, &n)
}


/// The white-space separated words of `s`, in order: what
/// `str::split_whitespace` yields.
pub open spec fn words(s: Seq<char>) -> Seq<Seq<char>>
    decreases s.len(),
{
    if s.len() == 0 {
        Seq::empty()
    } else {
        let w = words(s.drop_last());
        let c = s.last();
        if is_white_space(c) {
            w
        } else if s.len() >= 2 && !is_white_space(s[s.len() - 2]) {
            w.update(w.len() - 1, w.last().push(c))
        } else {
            w.push(seq![c])
        }
    }
}

/// The words of `cs[from..to]`.
pub fn words_in(cs: &Vec<char>, from: usize, to: usize) -> (r: Vec<String>)
    requires
        from <= to <= cs.len(),
    ensures
        strs(r@) == words(cs@.subrange(from as int, to as int)),
{
    let mut out: Vec<String> = Vec::new();
    let mut start: usize = from;
    let mut in_word = false;
    let mut i = from;
    while i < to
        invariant
            from <= start <= i <= to <= cs.len(),
            in_word == (i > from && !is_white_space(cs@[i - 1])),
            in_word ==> start < i,
            in_word ==> words(cs@.subrange(from as int, i as int)) == strs(out@).push(
                cs@.subrange(start as int, i as int),
            ),
            !in_word ==> words(cs@.subrange(from as int, i as int)) == strs(out@),
        decreases to - i,
    {
        let c = cs[i];
        let ghost prev = cs@.subrange(from as int, i as int);
        let ghost next = cs@.subrange(from as int, i + 1);
        assert(next.drop_last() =~= prev);
        assert(next.last() == c);
        if white_space(c) {
            if in_word {
                let w = string_of_range(cs, start, i);
                proof {
                    assert(strs(out@.push(w)) =~= strs(out@).push(w@));
                }
                out.push(w);
                in_word = false;
            }
        } else {
            if !in_word {
                start = i;
                in_word = true;
                assert(cs@.subrange(i as int, i + 1) =~= seq![c]);
            } else {
                assert(next[next.len() - 2] == cs@[i - 1]);
                assert(cs@.subrange(start as int, i + 1) =~= cs@.subrange(start as int, i as int).push(c));
                assert(strs(out@).push(cs@.subrange(start as int, i as int)).update(
                    strs(out@).len() as int, cs@.subrange(start as int, i + 1)) =~= strs(out@).push(
                    cs@.subrange(start as int, i + 1)));
            }
        }
        i += 1;
    }
    if in_word {
        let w = string_of_range(cs, start, to);
        proof {
            assert(strs(out@.push(w)) =~= strs(out@).push(w@));
        }
        out.push(w);
    }
    out
}

/// A single word: non-empty, without white space.
pub open spec fn single_word(w: Seq<char>) -> bool {
    w.len() > 0 && forall|i: int| 0 <= i < w.len() ==> !is_white_space(#[trigger] w[i])
}

/// A word that follows white space (or nothing) adds itself to the words.
pub proof fn lemma_words_after_space(t: Seq<char>, w: Seq<char>)
    requires
        t.len() == 0 || is_white_space(t.last()),
        single_word(w),
    ensures
        words(t + w) == words(t).push(w),
    decreases w.len(),
{
    let s = t + w;
    if w.len() == 1 {
        assert(s.drop_last() =~= t);
        assert(w =~= seq![w[0]]);
        if s.len() >= 2 {
            assert(s[s.len() - 2] == t.last());
        }
    } else {
        let w1 = w.drop_last();
        assert(forall|i: int| 0 <= i < w1.len() ==> w1[i] == w[i]);
        lemma_words_after_space(t, w1);
        assert(s.drop_last() =~= t + w1);
        assert(s[s.len() - 2] == w[w.len() - 2]);
        assert(w1.push(w.last()) =~= w);
        assert(words(t).push(w1).update(words(t).len() as int, w1.push(w.last())) =~= words(t).push(w));
    }
}

/// Trailing white space adds no word.
pub proof fn lemma_words_trailing_space(t: Seq<char>, sp: Seq<char>)
    requires
        forall|i: int| 0 <= i < sp.len() ==> is_white_space(#[trigger] sp[i]),
    ensures
        words(t + sp) == words(t),
    decreases sp.len(),
{
    if sp.len() == 0 {
        assert(t + sp =~= t);
    } else {
        let sp1 = sp.drop_last();
        assert(forall|i: int| 0 <= i < sp1.len() ==> sp1[i] == sp[i]);
        lemma_words_trailing_space(t, sp1);
        assert((t + sp).drop_last() =~= t + sp1);
    }
}

/// The words of `a`, a run of white space, then `b`, where `a` and `b` are
/// single words: exactly `a` and `b`.
pub proof fn lemma_words_two(a: Seq<char>, sp: Seq<char>, b: Seq<char>)
    requires
        single_word(a),
        single_word(b),
        sp.len() > 0,
        forall|i: int| 0 <= i < sp.len() ==> is_white_space(#[trigger] sp[i]),
    ensures
        words(a + sp + b) == seq![a, b],
{
    let e = Seq::<char>::empty();
    lemma_words_after_space(e, a);
    assert(e + a =~= a);
    assert(words(e) =~= Seq::<Seq<char>>::empty());
    lemma_words_trailing_space(a, sp);
    assert((a + sp).last() == sp.last());
    lemma_words_after_space(a + sp, b);
    assert(seq![a].push(b) =~= seq![a, b]);
}

/// No element occurs twice.
pub open spec fn distinct(s: Seq<Seq<char>>) -> bool {
    forall|i: int, j: int| 0 <= i < j < s.len() ==> #[trigger] s[i] != #[trigger] s[j]
}

/// Removing repeats keeps exactly the same members, each once.
pub proof fn lemma_dedup(s: Seq<Seq<char>>)
    ensures
        forall|x: Seq<char>| dedup(s).contains(x) <==> s.contains(x),
        distinct(dedup(s)),
    decreases s.len(),
{
    if s.len() > 0 {
        let s0 = s.drop_last();
        lemma_dedup(s0);
        let d = dedup(s0);
        assert forall|x: Seq<char>| dedup(s).contains(x) <==> s.contains(x) by {
            if s.contains(x) {
                let k = choose|k: int| 0 <= k < s.len() && s[k] == x;
                if k < s.len() - 1 {
                    assert(s0[k] == x);
                }
            }
            if s0.contains(x) {
                let k = choose|k: int| 0 <= k < s0.len() && s0[k] == x;
                assert(s[k] == x);
            }
            if !d.contains(s.last()) {
                assert(d.push(s.last())[d.len() as int] == s.last());
                if d.push(s.last()).contains(x) {
                    let k = choose|k: int| 0 <= k < d.len() + 1 && d.push(s.last())[k] == x;
                    if k < d.len() {
                        assert(d[k] == x);
                    }
                }
                if d.contains(x) {
                    let k = choose|k: int| 0 <= k < d.len() && d[k] == x;
                    assert(d.push(s.last())[k] == x);
                }
            }
            assert(s.last() == s[s.len() - 1]);
        }
    }
}

} // verus!
