//! General lemmas about filtered sequences, and the subsequence relation,
//! shared by the ranking and history modules.

use vstd::prelude::*;

verus! {

/// Filtering a sequence extended by one element keeps the element exactly
/// when the predicate holds of it.
pub proof fn lemma_filter_push<A>(s: Seq<A>, pred: spec_fn(A) -> bool, x: A)
    ensures
        s.push(x).filter(pred) == if pred(x) {
            s.filter(pred).push(x)
        } else {
            s.filter(pred)
        },
{
    reveal(Seq::filter);
    assert(s.push(x).drop_last() =~= s);
    assert(s.push(x).last() == x);
}

/// Every element of a filtered sequence is an element of the original.
pub proof fn lemma_filter_membership<A>(s: Seq<A>, pred: spec_fn(A) -> bool)
    ensures
        forall|k: int|
            0 <= k < s.filter(pred).len() ==> s.contains(#[trigger] s.filter(pred)[k]),
    decreases s.len(),
{
    reveal(Seq::filter);
    if s.len() > 0 {
        let t = s.drop_last();
        lemma_filter_membership(t, pred);
        assert forall|k: int|
            0 <= k < s.filter(pred).len() implies s.contains(s.filter(pred)[k]) by {
            if k < t.filter(pred).len() {
                assert(t.contains(t.filter(pred)[k]));
                let j = choose|j: int| 0 <= j < t.len() && t[j] == t.filter(pred)[k];
                assert(s[j] == s.filter(pred)[k]);
            } else {
                assert(s[s.len() - 1] == s.filter(pred)[k]);
            }
        }
    }
}

/// Filtering keeps everything when the predicate holds of every element.
pub proof fn lemma_filter_all<A>(s: Seq<A>, pred: spec_fn(A) -> bool)
    requires
        forall|i: int| 0 <= i < s.len() ==> pred(#[trigger] s[i]),
    ensures
        s.filter(pred) == s,
    decreases s.len(),
{
    reveal(Seq::filter);
    if s.len() > 0 {
        lemma_filter_all(s.drop_last(), pred);
        assert(s.filter(pred) =~= s);
    }
}

/// A predicate and its complement split a sequence into two parts that
/// together hold every element exactly as often as the original.
pub proof fn lemma_filter_partition<A>(s: Seq<A>, p: spec_fn(A) -> bool, q: spec_fn(A) -> bool)
    requires
        forall|a: A| #[trigger] q(a) <==> !p(a),
    ensures
        s.filter(p).to_multiset().add(s.filter(q).to_multiset()) == s.to_multiset(),
    decreases s.len(),
{
    broadcast use vstd::seq_lib::group_to_multiset_ensures;

    reveal(Seq::filter);
    if s.len() == 0 {
        assert(s.filter(p).to_multiset().add(s.filter(q).to_multiset())
            =~= s.to_multiset());
    } else {
        let t = s.drop_last();
        let x = s.last();
        lemma_filter_partition(t, p, q);
        assert(s =~= t.push(x));
        if p(x) {
            assert(s.filter(p) == t.filter(p).push(x));
            assert(s.filter(q) == t.filter(q));
            assert(s.filter(p).to_multiset().add(s.filter(q).to_multiset()) =~= s.to_multiset());
        } else {
            assert(s.filter(q) == t.filter(q).push(x));
            assert(s.filter(p) == t.filter(p));
            assert(s.filter(p).to_multiset().add(s.filter(q).to_multiset()) =~= s.to_multiset());
        }
    }
}

/// Filtering twice is filtering once by the conjunction.
pub proof fn lemma_filter_compose<A>(
    s: Seq<A>,
    p: spec_fn(A) -> bool,
    q: spec_fn(A) -> bool,
    r: spec_fn(A) -> bool,
)
    requires
        forall|a: A| #[trigger] r(a) <==> p(a) && q(a),
    ensures
        s.filter(p).filter(q) == s.filter(r),
    decreases s.len(),
{
    reveal(Seq::filter);
    if s.len() > 0 {
        let t = s.drop_last();
        let x = s.last();
        lemma_filter_compose(t, p, q, r);
        assert(s =~= t.push(x));
        if p(x) {
            lemma_filter_push(t.filter(p), q, x);
            assert(s.filter(p) == t.filter(p).push(x));
        }
    }
}

/// `a` is a subsequence of `b`: `a` can be read off `b` left to right,
/// skipping elements of `b` at will.
pub open spec fn subsequence_of<A>(a: Seq<A>, b: Seq<A>) -> bool
    decreases b.len(),
{
    if a.len() == 0 {
        true
    } else if b.len() == 0 {
        false
    } else {
        (a.last() == b.last() && subsequence_of(a.drop_last(), b.drop_last()))
            || subsequence_of(a, b.drop_last())
    }
}

/// A stricter filter keeps a subsequence of what a looser filter keeps.
pub proof fn lemma_filter_implies_subsequence<A>(
    s: Seq<A>,
    p: spec_fn(A) -> bool,
    q: spec_fn(A) -> bool,
)
    requires
        forall|a: A| #[trigger] q(a) ==> p(a),
    ensures
        subsequence_of(s.filter(q), s.filter(p)),
    decreases s.len(),
{
    reveal(Seq::filter);
    if s.len() > 0 {
        let t = s.drop_last();
        let x = s.last();
        lemma_filter_implies_subsequence(t, p, q);
        if q(x) {
            assert(s.filter(q) == t.filter(q).push(x));
            assert(s.filter(p) == t.filter(p).push(x));
            assert(t.filter(q).push(x).drop_last() =~= t.filter(q));
            assert(t.filter(p).push(x).drop_last() =~= t.filter(p));
        } else if p(x) {
            assert(s.filter(q) == t.filter(q));
            assert(s.filter(p) == t.filter(p).push(x));
            assert(t.filter(p).push(x).drop_last() =~= t.filter(p));
            assert(subsequence_of(s.filter(q), s.filter(p).drop_last()));
        } else {
            assert(s.filter(q) == t.filter(q));
            assert(s.filter(p) == t.filter(p));
        }
    }
}

/// What a filter keeps is a subsequence of the original: no reordering, only
/// removal.
pub proof fn lemma_filter_subsequence<A>(s: Seq<A>, pred: spec_fn(A) -> bool)
    ensures
        subsequence_of(s.filter(pred), s),
    decreases s.len(),
{
    reveal(Seq::filter);
    if s.len() > 0 {
        let t = s.drop_last();
        let x = s.last();
        lemma_filter_subsequence(t, pred);
        if pred(x) {
            assert(s.filter(pred) == t.filter(pred).push(x));
            assert(t.filter(pred).push(x).drop_last() =~= t.filter(pred));
            assert(s.filter(pred).last() == s.last());
            assert(subsequence_of(s.filter(pred).drop_last(), s.drop_last()));
        } else {
            assert(s.filter(pred) == t.filter(pred));
            assert(subsequence_of(s.filter(pred), s.drop_last()));
        }
    }
}

} // verus!
