//! Facts about picking the elements of a list that have some property.
use vstd::prelude::*;

verus! {

/// Picking from a list of one.
pub proof fn lemma_filter_one<A>(x: A, pred: spec_fn(A) -> bool)
    ensures
        seq![x].filter(pred) == (if pred(x) {
            seq![x]
        } else {
            Seq::empty()
        }),
        Seq::<A>::empty().filter(pred) == Seq::<A>::empty(),
{
    reveal(Seq::filter);
    assert(seq![x].drop_last() =~= Seq::empty());
    assert(Seq::<A>::empty().filter(pred) =~= Seq::empty());
    assert(seq![x].filter(pred) =~= (if pred(x) {
        seq![x]
    } else {
        Seq::empty()
    }));
}

/// Picking from a list with one more element.
pub proof fn lemma_filter_push<A>(s: Seq<A>, x: A, pred: spec_fn(A) -> bool)
    ensures
        s.push(x).filter(pred) == (if pred(x) {
            s.filter(pred).push(x)
        } else {
            s.filter(pred)
        }),
{
    reveal(Seq::filter);
    assert(s.push(x).drop_last() =~= s);
}

/// A picked element stands behind those that were picked before it.
pub proof fn lemma_filter_position<A>(s: Seq<A>, pred: spec_fn(A) -> bool, i: int)
    requires
        0 <= i < s.len(),
        pred(s[i]),
    ensures
        s.take(i).filter(pred).len() < s.filter(pred).len(),
        s.filter(pred)[s.take(i).filter(pred).len() as int] == s[i],
    decreases s.len(),
{
    let t = s.drop_last();
    lemma_filter_push(t, s.last(), pred);
    assert(t.push(s.last()) =~= s);
    if i == s.len() - 1 {
        assert(s.take(i) =~= t);
    } else {
        lemma_filter_position(t, pred, i);
        assert(t.take(i) =~= s.take(i));
    }
}

/// What was picked stands somewhere in the list.
pub proof fn lemma_filter_origin<A>(s: Seq<A>, pred: spec_fn(A) -> bool, k: int) -> (i: int)
    requires
        0 <= k < s.filter(pred).len(),
    ensures
        0 <= i < s.len(),
        pred(s[i]),
        s.filter(pred)[k] == s[i],
        s.take(i).filter(pred).len() == k,
    decreases s.len(),
{
    reveal(Seq::filter);
    let t = s.drop_last();
    if k < t.filter(pred).len() {
        let i = lemma_filter_origin(t, pred, k);
        assert(t.take(i) =~= s.take(i));
        i
    } else {
        assert(s.take(s.len() - 1) =~= t);
        s.len() - 1
    }
}

} // verus!
