//! Small facts about `Seq::filter` that the reconciliation and resync
//! proofs use: membership, all-true and all-false predicates, and
//! distinctness.

use vstd::prelude::*;

verus! {

/// An element is in the filtered sequence exactly when it is in the
/// original and satisfies the predicate.
pub proof fn lemma_filter_membership<A>(s: Seq<A>, pred: spec_fn(A) -> bool)
    ensures
        forall|x: A| #[trigger] s.filter(pred).contains(x) <==> s.contains(x) && pred(x),
{
    broadcast use vstd::seq_lib::group_filter_ensures;
    broadcast use Seq::lemma_filter_contains_rev;

    let f = s.filter(pred);
    assert forall|x: A| #[trigger] f.contains(x) implies s.contains(x) && pred(x) by {
        let j = choose|j: int| 0 <= j < f.len() && f[j] == x;
        assert(pred(f[j]));
    }
    assert forall|x: A| s.contains(x) && pred(x) implies #[trigger] f.contains(x) by {
        let i = choose|i: int| 0 <= i < s.len() && s[i] == x;
        assert(pred(s[i]));
        assert(f.contains(s[i]));
    }
}

/// If every element satisfies the predicate, filtering changes nothing.
pub proof fn lemma_filter_all_true<A>(s: Seq<A>, pred: spec_fn(A) -> bool)
    requires
        forall|i: int| 0 <= i < s.len() ==> pred(#[trigger] s[i]),
    ensures
        s.filter(pred) == s,
    decreases s.len(),
{
    reveal(Seq::filter);
    if s.len() > 0 {
        assert(forall|i: int| 0 <= i < s.drop_last().len() ==> pred(#[trigger] s.drop_last()[i]));
        lemma_filter_all_true(s.drop_last(), pred);
        assert(pred(s.last()));
        assert(s.filter(pred) =~= s);
    } else {
        assert(s.filter(pred) =~= s);
    }
}

/// If no element satisfies the predicate, filtering leaves nothing.
pub proof fn lemma_filter_all_false<A>(s: Seq<A>, pred: spec_fn(A) -> bool)
    requires
        forall|i: int| 0 <= i < s.len() ==> !pred(#[trigger] s[i]),
    ensures
        s.filter(pred) == Seq::<A>::empty(),
    decreases s.len(),
{
    reveal(Seq::filter);
    if s.len() > 0 {
        assert(forall|i: int| 0 <= i < s.drop_last().len() ==> !pred(
            #[trigger] s.drop_last()[i],
        ));
        lemma_filter_all_false(s.drop_last(), pred);
        assert(!pred(s.last()));
    } else {
        assert(s.filter(pred) =~= Seq::<A>::empty());
    }
}

/// A filtered sequence of distinct elements is still distinct.
pub proof fn lemma_filter_no_duplicates<A>(s: Seq<A>, pred: spec_fn(A) -> bool)
    requires
        s.no_duplicates(),
    ensures
        s.filter(pred).no_duplicates(),
    decreases s.len(),
{
    broadcast use Seq::lemma_filter_contains_rev;

    reveal(Seq::filter);
    if s.len() > 0 {
        let sub = s.drop_last();
        assert(sub.no_duplicates());
        lemma_filter_no_duplicates(sub, pred);
        if pred(s.last()) {
            assert(!sub.contains(s.last())) by {
                if sub.contains(s.last()) {
                    let i = choose|i: int| 0 <= i < sub.len() && sub[i] == s.last();
                    assert(s[i] == s[s.len() - 1]);
                }
            }
            assert(!sub.filter(pred).contains(s.last()));
            assert(s.filter(pred) == sub.filter(pred).push(s.last()));
            assert forall|i: int, j: int|
                0 <= i < s.filter(pred).len() && 0 <= j < s.filter(pred).len() && i
                    != j implies s.filter(pred)[i] != s.filter(pred)[j] by {
                let f = sub.filter(pred);
                if i < f.len() && j < f.len() {
                } else if i == f.len() {
                    assert(f.contains(f[j]));
                } else {
                    assert(f.contains(f[i]));
                }
            }
        }
    }
}

} // verus!
