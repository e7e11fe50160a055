//! Sorting by an integer key, and sorting of texts.
use vstd::prelude::*;
use vstd::multiset::Multiset;
use crate::text;

verus! {

broadcast use vstd::seq_lib::group_to_multiset_ensures;

/// A key with the place that it came from.
pub type Keyed = (u64, usize);

/// The pair `a` comes no later than `b`: by key, then by place.
pub open spec fn no_later(a: Keyed, b: Keyed) -> bool {
    a.0 < b.0 || (a.0 == b.0 && a.1 <= b.1)
}

/// The pairs stand in order.
pub open spec fn ordered(s: Seq<Keyed>) -> bool {
    forall|i: int, j: int| 0 <= i <= j < s.len() ==> no_later(#[trigger] s[i], #[trigger] s[j])
}

fn merge(a: &Vec<Keyed>, b: &Vec<Keyed>) -> (r: Vec<Keyed>)
    requires
        ordered(a@),
        ordered(b@),
    ensures
        ordered(r@),
        r@.to_multiset() == a@.to_multiset().add(b@.to_multiset()),
{
    let mut out: Vec<Keyed> = Vec::new();
    let mut i: usize = 0;
    let mut j: usize = 0;
    proof {
        assert(a@.take(0) =~= Seq::empty());
        assert(b@.take(0) =~= Seq::empty());
        assert(out@.to_multiset() =~= a@.take(0).to_multiset().add(b@.take(0).to_multiset()));
    }
    while i < a.len() || j < b.len()
        invariant
            ordered(a@),
            ordered(b@),
            i <= a.len(),
            j <= b.len(),
            ordered(out@),
            forall|k: int, m: int|
                0 <= k < out@.len() && i <= m < a@.len() ==> no_later(
                    #[trigger] out@[k],
                    #[trigger] a@[m],
                ),
            forall|k: int, m: int|
                0 <= k < out@.len() && j <= m < b@.len() ==> no_later(
                    #[trigger] out@[k],
                    #[trigger] b@[m],
                ),
            out@.to_multiset() == a@.take(i as int).to_multiset().add(
                b@.take(j as int).to_multiset(),
            ),
        decreases a.len() - i + b.len() - j,
    {
        let from_a = j >= b.len() || (i < a.len() && (a[i].0 < b[j].0 || (a[i].0 == b[j].0
            && a[i].1 <= b[j].1)));
        if from_a {
            let x = a[i];
            proof {
                assert(a@.take(i + 1) =~= a@.take(i as int).push(x));
                assert(out@.push(x).to_multiset() =~= a@.take(i + 1).to_multiset().add(
                    b@.take(j as int).to_multiset(),
                ));
            }
            out.push(x);
            i += 1;
        } else {
            let x = b[j];
            proof {
                assert(b@.take(j + 1) =~= b@.take(j as int).push(x));
                assert(out@.push(x).to_multiset() =~= a@.take(i as int).to_multiset().add(
                    b@.take(j + 1).to_multiset(),
                ));
            }
            out.push(x);
            j += 1;
        }
    }
    proof {
        assert(a@.take(a@.len() as int) =~= a@);
        assert(b@.take(b@.len() as int) =~= b@);
    }
    out
}

/// Puts keyed pairs in order; no pair is lost, added or changed.
pub fn sort_keyed(v: Vec<Keyed>) -> (r: Vec<Keyed>)
    ensures
        ordered(r@),
        r@.to_multiset() == v@.to_multiset(),
    decreases v@.len(),
{
    let n: usize = v.len();
    if n < 2 {
        return v;
    }
    let mut left = v;
    let right = left.split_off(n / 2);
    proof {
        assert(left@ + right@ =~= v@);
        vstd::seq_lib::lemma_multiset_commutative(left@, right@);
    }
    let a = sort_keyed(left);
    let b = sort_keyed(right);
    merge(&a, &b)
}

/// The numbers in ascending order; none is lost or added.
pub fn sorted_numbers(v: &Vec<u64>) -> (r: Vec<u64>)
    ensures
        forall|i: int, j: int| 0 <= i <= j < r@.len() ==> #[trigger] r@[i] <= #[trigger] r@[j],
        r@.to_multiset() == v@.to_multiset(),
{
    let mut keyed: Vec<Keyed> = Vec::new();
    let mut i: usize = 0;
    while i < v.len()
        invariant
            i <= v.len(),
            keyed@ == Seq::new(i as nat, |k: int| (v@[k], 0usize)),
        decreases v.len() - i,
    {
        keyed.push((v[i], 0));
        proof {
            assert(keyed@ =~= Seq::new((i + 1) as nat, |k: int| (v@[k], 0usize)));
        }
        i += 1;
    }
    let ghost before = keyed@;
    let sorted = sort_keyed(keyed);
    let mut out: Vec<u64> = Vec::new();
    let mut k: usize = 0;
    while k < sorted.len()
        invariant
            k <= sorted.len(),
            out@ == sorted@.take(k as int).map_values(|p: Keyed| p.0),
        decreases sorted.len() - k,
    {
        out.push(sorted[k].0);
        proof {
            assert(out@ =~= sorted@.take(k + 1).map_values(|p: Keyed| p.0));
        }
        k += 1;
    }
    proof {
        assert(sorted@.take(sorted@.len() as int) =~= sorted@);
        assert(before.map_values(|p: Keyed| p.0) =~= v@);
        lemma_map_multiset(sorted@, before, |p: Keyed| p.0);
    }
    out
}

/// Two runs with the same elements still have the same elements after a mapping.
pub proof fn lemma_map_multiset<T>(a: Seq<Keyed>, b: Seq<Keyed>, f: spec_fn(Keyed) -> T)
    requires
        a.to_multiset() == b.to_multiset(),
    ensures
        a.map_values(f).to_multiset() == b.map_values(f).to_multiset(),
    decreases a.len(),
{
    if a.len() == 0 {
        assert(b.len() == 0) by {
            assert(a.to_multiset().len() == 0);
        }
        assert(a.map_values(f) =~= b.map_values(f));
    } else {
        let x = a.last();
        assert(a.contains(x));
        assert(b.to_multiset().count(x) > 0);
        assert(b.contains(x));
        let k = b.index_of(x);
        let a1 = a.drop_last();
        let b1 = b.remove(k);
        assert(a =~= a1.push(x));
        assert(a1.to_multiset() =~= b1.to_multiset());
        lemma_map_multiset(a1, b1, f);
        assert(a.map_values(f) =~= a1.map_values(f).push(f(x)));
        let bm = b.map_values(f);
        assert(bm.remove(k) =~= b1.map_values(f));
        assert(bm[k] == f(x));
        assert(bm.to_multiset() =~= b1.map_values(f).to_multiset().insert(f(x)));
    }
}

/// In an ordered list no later item has a smaller key, and among equal keys none has a smaller
/// second number.
pub proof fn law_order_of_items(s: Seq<Keyed>, i: int, j: int)
    requires
        ordered(s),
        0 <= i < j < s.len(),
    ensures
        s[i].0 <= s[j].0,
        s[i].0 == s[j].0 ==> s[i].1 <= s[j].1,
{
    assert(no_later(s[i], s[j]));
}

} // verus!
