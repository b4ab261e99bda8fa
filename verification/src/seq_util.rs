//! Sequence combinators used to state what the detectors and parsers return.
use vstd::prelude::*;

verus! {

/// `f(s[0]) + f(s[1]) + ... + f(s[n-1])`.
pub open spec fn concat_map<A, B>(s: Seq<A>, f: spec_fn(A) -> Seq<B>) -> Seq<B>
    decreases s.len(),
{
    if s.len() == 0 {
        Seq::empty()
    } else {
        concat_map(s.drop_last(), f) + f(s.last())
    }
}

/// Extending the prefix by one element appends that element's image.
pub proof fn lemma_concat_map_take<A, B>(s: Seq<A>, f: spec_fn(A) -> Seq<B>, i: int)
    requires
        0 <= i < s.len(),
    ensures
        concat_map(s.take(i + 1), f) == concat_map(s.take(i), f) + f(s[i]),
{
    assert(s.take(i + 1).drop_last() =~= s.take(i));
}

/// Taking the whole sequence changes nothing.
pub proof fn lemma_take_full<A>(s: Seq<A>)
    ensures
        s.take(s.len() as int) == s,
{
    assert(s.take(s.len() as int) =~= s);
}

/// Mapping over a pushed sequence.
pub proof fn lemma_concat_map_push<A, B>(s: Seq<A>, x: A, f: spec_fn(A) -> Seq<B>)
    ensures
        concat_map(s.push(x), f) == concat_map(s, f) + f(x),
{
    assert(s.push(x).drop_last() =~= s);
}

/// Every element of every image appears in the map.
pub proof fn lemma_concat_map_contains<A, B>(s: Seq<A>, f: spec_fn(A) -> Seq<B>, i: int, k: int)
    requires
        0 <= i < s.len(),
        0 <= k < f(s[i]).len(),
    ensures
        concat_map(s, f).contains(f(s[i])[k]),
    decreases s.len(),
{
    let prefix = concat_map(s.drop_last(), f);
    if i == s.len() - 1 {
        assert((prefix + f(s.last()))[prefix.len() + k] == f(s[i])[k]);
    } else {
        lemma_concat_map_contains(s.drop_last(), f, i, k);
        let j = choose|j: int| 0 <= j < prefix.len() && prefix[j] == f(s[i])[k];
        assert((prefix + f(s.last()))[j] == f(s[i])[k]);
    }
}

/// A property of every element of every image holds of every element of
/// the map.
pub proof fn lemma_concat_map_all<A, B>(s: Seq<A>, f: spec_fn(A) -> Seq<B>, p: spec_fn(B) -> bool)
    requires
        forall|i: int, k: int| 0 <= i < s.len() && 0 <= k < f(s[i]).len() ==> #[trigger] p(f(s[i])[k]),
    ensures
        forall|k: int| 0 <= k < concat_map(s, f).len() ==> #[trigger] p(concat_map(s, f)[k]),
    decreases s.len(),
{
    if s.len() > 0 {
        let t = s.drop_last();
        assert forall|i: int, k: int| 0 <= i < t.len() && 0 <= k < f(t[i]).len() implies #[trigger] p(f(t[i])[k]) by {
            assert(t[i] == s[i]);
        }
        lemma_concat_map_all(t, f, p);
        let prefix = concat_map(t, f);
        let last = f(s.last());
        assert forall|k: int| 0 <= k < concat_map(s, f).len() implies #[trigger] p(concat_map(s, f)[k]) by {
            if k < prefix.len() {
                assert(concat_map(s, f)[k] == prefix[k]);
            } else {
                assert(concat_map(s, f)[k] == last[k - prefix.len()]);
                assert(p(f(s[s.len() - 1])[k - prefix.len()]));
            }
        }
    }
}

} // verus!
