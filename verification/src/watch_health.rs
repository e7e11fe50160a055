//! What is wrong with the watching of each volume, for the status.
use vstd::prelude::*;
use crate::text;

verus! {

broadcast use vstd::seq_lib::group_to_multiset_ensures;

/// The problems of the volumes, at most one for each.
#[derive(Debug)]
pub struct WatchHealth {
    items: Vec<(String, String)>,
}

/// The volumes with a problem and its text, in the order in which they came.
pub type Problems = Seq<(Seq<char>, Seq<char>)>;

pub open spec fn pairs(v: Seq<(String, String)>) -> Problems {
    v.map_values(|p: (String, String)| (p.0@, p.1@))
}

impl View for WatchHealth {
    type V = Problems;

    closed spec fn view(&self) -> Problems {
        pairs(self.items@)
    }
}

/// No volume has two problems.
pub open spec fn one_each(v: Problems) -> bool {
    forall|i: int, j: int| 0 <= i < j < v.len() ==> (#[trigger] v[i]).0 != (#[trigger] v[j]).0
}

impl WatchHealth {
    #[verifier::type_invariant]
    spec fn inv(self) -> bool {
        one_each(pairs(self.items@))
    }
}

/// The problems without that of the volume `id`.
pub open spec fn without(v: Problems, id: Seq<char>) -> Problems
    decreases v.len(),
{
    if v.len() == 0 {
        Seq::empty()
    } else {
        let rest = without(v.drop_last(), id);
        if v.last().0 == id {
            rest
        } else {
            rest.push(v.last())
        }
    }
}

/// The problems after that of the volume `id` was set or cleared.
pub open spec fn with_problem(v: Problems, id: Seq<char>, err: Option<Seq<char>>) -> Problems {
    match err {
        Some(e) => without(v, id).push((id, e)),
        None => without(v, id),
    }
}

/// `a` comes before `b` or equals it, by the first character in which they differ.
pub open spec fn text_le(a: Seq<char>, b: Seq<char>) -> bool
    decreases a.len(),
{
    if a.len() == 0 {
        true
    } else if b.len() == 0 {
        false
    } else if a[0] as u32 != b[0] as u32 {
        (a[0] as u32) < (b[0] as u32)
    } else {
        text_le(a.drop_first(), b.drop_first())
    }
}

/// `x` put in its place among sorted texts.
pub open spec fn inserted(v: Seq<Seq<char>>, x: Seq<char>) -> Seq<Seq<char>>
    decreases v.len(),
{
    if v.len() > 0 && !text_le(v.last(), x) {
        inserted(v.drop_last(), x).push(v.last())
    } else {
        v.push(x)
    }
}

/// The texts in ascending order.
pub open spec fn sorted_texts(v: Seq<Seq<char>>) -> Seq<Seq<char>>
    decreases v.len(),
{
    if v.len() == 0 {
        Seq::empty()
    } else {
        inserted(sorted_texts(v.drop_last()), v.last())
    }
}

/// The line of each problem: the volume, a colon and the text.
pub open spec fn lines(v: Problems) -> Seq<Seq<char>> {
    v.map_values(|p: (Seq<char>, Seq<char>)| p.0 + ": "@ + p.1)
}

/// All problems in one line, by ascending text.
pub open spec fn summary(v: Problems) -> Option<Seq<char>> {
    if v.len() == 0 {
        None
    } else {
        Some(text::joined(sorted_texts(lines(v)), "; "@))
    }
}

fn chars_le(a: &Vec<char>, b: &Vec<char>, i: usize) -> (r: bool)
    requires
        i <= a@.len(),
        i <= b@.len(),
    ensures
        r == text_le(a@.skip(i as int), b@.skip(i as int)),
    decreases a@.len() - i,
{
    if i == a.len() {
        return true;
    }
    if i == b.len() {
        return false;
    }
    if a[i] as u32 != b[i] as u32 {
        return (a[i] as u32) < (b[i] as u32);
    }
    proof {
        assert(a@.skip(i as int).drop_first() =~= a@.skip(i + 1));
        assert(b@.skip(i as int).drop_first() =~= b@.skip(i + 1));
    }
    chars_le(a, b, i + 1)
}

fn string_le(a: &str, b: &str) -> (r: bool)
    ensures
        r == text_le(a@, b@),
{
    let x = text::chars_of(a);
    let y = text::chars_of(b);
    assert(x@.skip(0) =~= a@);
    assert(y@.skip(0) =~= b@);
    chars_le(&x, &y, 0)
}

fn insert_text(v: &mut Vec<String>, x: String)
    ensures
        text::texts(final(v)@) == inserted(text::texts(old(v)@), x@),
    decreases old(v)@.len(),
{
    let n: usize = v.len();
    let ghost before = text::texts(v@);
    if n > 0 && !string_le(&v[n - 1], &x) {
        let last = v.pop();
        match last {
            Some(s) => {
                proof {
                    assert(text::texts(v@) =~= before.drop_last());
                    assert(s@ == before.last());
                }
                insert_text(v, x);
                let ghost mid = text::texts(v@);
                v.push(s);
                proof {
                    assert(text::texts(v@) =~= mid.push(s@));
                }
            },
            None => {},
        }
    } else {
        v.push(x);
        proof {
            assert(text::texts(v@) =~= before.push(x@));
        }
    }
}

impl WatchHealth {
    pub fn new() -> (r: WatchHealth)
        ensures
            r@ == Seq::<(Seq<char>, Seq<char>)>::empty(),
            one_each(r@),
    {
        let h = WatchHealth { items: Vec::new() };
        assert(pairs(h.items@) =~= Seq::empty());
        h
    }

    /// Sets the problem of a volume, or clears it.
    pub fn set_watch_error_id(&mut self, id: &str, err: Option<String>)
        ensures
            one_each(final(self)@),
            final(self)@ == with_problem(
                old(self)@,
                id@,
                match err {
                    Some(e) => Some(e@),
                    None => None,
                },
            ),
    {
        proof {
            use_type_invariant(&*self);
        }
        let ghost all = pairs(self.items@);
        let mut rest: Vec<(String, String)> = Vec::new();
        let mut kept: Vec<(String, String)> = Vec::new();
        std::mem::swap(&mut rest, &mut self.items);
        let ghost was = rest@;
        proof {
            assert(pairs(kept@) =~= without(all.take(0), id@));
        }
        for p in it: rest
            invariant
                it.seq() == was,
                all == pairs(was),
                pairs(kept@) == without(all.take(it.index() as int), id@),
        {
            let ghost i = it.index() as int;
            let ghost had = pairs(kept@);
            proof {
                assert(all.take(i + 1).drop_last() =~= all.take(i));
                assert(all.take(i + 1).last() == (p.0@, p.1@));
            }
            if !text::same_text(&p.0, id) {
                kept.push(p);
                proof {
                    assert(pairs(kept@) =~= had.push((p.0@, p.1@)));
                }
            }
        }
        proof {
            assert(all.take(all.len() as int) =~= all);
            lemma_without_one_each(all, id@);
        }
        match err {
            Some(e) => {
                let ghost had = pairs(kept@);
                kept.push((text::copied(id), e));
                proof {
                    assert(pairs(kept@) =~= had.push((id@, e@)));
                    assert forall|i: int, j: int| 0 <= i < j < pairs(kept@).len() implies (
                    #[trigger] pairs(kept@)[i]).0 != (#[trigger] pairs(kept@)[j]).0 by {
                        assert(pairs(kept@)[i] == had[i]);
                        if j < had.len() {
                            assert(pairs(kept@)[j] == had[j]);
                        } else {
                            assert(had.contains(had[i]));
                            lemma_without(all, id@, had[i]);
                        }
                    }
                }
            },
            None => {},
        }
        self.items = kept;
    }

    /// Sets or clears the problem of a volume that has a letter.
    pub fn set_watch_error(&mut self, letter: char, err: Option<String>)
        ensures
            one_each(final(self)@),
            final(self)@ == with_problem(
                old(self)@,
                seq![text::upper(letter)],
                match err {
                    Some(e) => Some(e@),
                    None => None,
                },
            ),
    {
        let mut id = String::new();
        id.push(text::upper_char(letter));
        assert(id@ =~= seq![text::upper(letter)]);
        self.set_watch_error_id(&id, err);
    }

    /// All problems in one line, or nothing where there are none.
    pub fn watch_error_summary(&self) -> (r: Option<String>)
        ensures
            (match r {
                Some(s) => Some(s@),
                None => None,
            }) == summary(self@),
    {
        if self.items.len() == 0 {
            return None;
        }
        let ghost all = lines(self@);
        let mut sorted: Vec<String> = Vec::new();
        let mut i: usize = 0;
        proof {
            assert(text::texts(sorted@) =~= sorted_texts(all.take(0)));
        }
        while i < self.items.len()
            invariant
                i <= self.items.len(),
                all == lines(self@),
                all.len() == self.items@.len(),
                text::texts(sorted@) == sorted_texts(all.take(i as int)),
            decreases self.items.len() - i,
        {
            let mut line = text::copied(&self.items[i].0);
            line.push_str(": ");
            line.push_str(&self.items[i].1);
            proof {
                assert(all.take(i + 1).drop_last() =~= all.take(i as int));
                assert(all.take(i + 1).last() == line@);
            }
            insert_text(&mut sorted, line);
            i += 1;
        }
        proof {
            assert(all.take(all.len() as int) =~= all);
        }
        Some(text::join(&sorted, "; "))
    }
}

// ---- laws ---------------------------------------------------------------------------------

/// A volume has a problem after one was set, and none after it was cleared; other volumes keep
/// theirs.
pub proof fn law_problem_of_one_volume(
    v: Problems,
    id: Seq<char>,
    err: Option<Seq<char>>,
    p: (Seq<char>, Seq<char>),
)
    ensures
        with_problem(v, id, err).contains(p) <==> (p.0 == id && err == Some(p.1)) || (p.0 != id
            && v.contains(p)),
{
    lemma_without(v, id, p);
    let rest = without(v, id);
    let all = with_problem(v, id, err);
    match err {
        Some(e) => {
            assert(all[rest.len() as int] == (id, e));
            if rest.contains(p) {
                let k = choose|k: int| 0 <= k < rest.len() && #[trigger] rest[k] == p;
                assert(all[k] == p);
            }
            if all.contains(p) {
                let k = choose|k: int| 0 <= k < all.len() && #[trigger] all[k] == p;
                if k < rest.len() {
                    assert(rest[k] == p);
                }
            }
        },
        None => {},
    }
}

proof fn lemma_without_one_each(v: Problems, id: Seq<char>)
    requires
        one_each(v),
    ensures
        one_each(without(v, id)),
    decreases v.len(),
{
    if v.len() > 0 {
        let init = v.drop_last();
        assert(one_each(init)) by {
            assert forall|i: int, j: int| 0 <= i < j < init.len() implies (#[trigger] init[i]).0 != (
            #[trigger] init[j]).0 by {
                assert(v[i].0 != v[j].0);
            }
        }
        lemma_without_one_each(init, id);
        let rest = without(init, id);
        let all = without(v, id);
        if all.len() > rest.len() {
            assert forall|i: int, j: int| 0 <= i < j < all.len() implies (#[trigger] all[i]).0 != (
            #[trigger] all[j]).0 by {
                assert(all[i] == rest[i]);
                if j < rest.len() {
                    assert(all[j] == rest[j]);
                } else {
                    assert(rest.contains(rest[i]));
                    lemma_without(init, id, rest[i]);
                    let m = choose|m: int| 0 <= m < init.len() && init[m] == rest[i];
                    assert(v[m].0 != v[v.len() - 1].0);
                }
            }
        }
    }
}

proof fn lemma_without(v: Problems, id: Seq<char>, p: (Seq<char>, Seq<char>))
    ensures
        without(v, id).contains(p) <==> v.contains(p) && p.0 != id,
    decreases v.len(),
{
    if v.len() > 0 {
        let init = v.drop_last();
        let rest = without(init, id);
        let all = without(v, id);
        lemma_without(init, id, p);
        if all.contains(p) {
            let k = choose|k: int| 0 <= k < all.len() && #[trigger] all[k] == p;
            if k < rest.len() {
                assert(rest[k] == p);
                assert(rest.contains(p));
                let m = choose|m: int| 0 <= m < init.len() && #[trigger] init[m] == p;
                assert(v[m] == p);
            } else {
                assert(v[v.len() - 1] == p);
            }
        }
        if v.contains(p) && p.0 != id {
            let m = choose|m: int| 0 <= m < v.len() && #[trigger] v[m] == p;
            if m < init.len() {
                assert(init[m] == p);
                assert(rest.contains(p));
                let k = choose|k: int| 0 <= k < rest.len() && #[trigger] rest[k] == p;
                assert(all[k] == p);
            } else {
                assert(all[all.len() - 1] == p);
            }
        }
    }
}

/// The summary names every problem once: sorting loses and adds nothing.
pub proof fn law_summary_keeps_all(v: Seq<Seq<char>>)
    ensures
        sorted_texts(v).to_multiset() == v.to_multiset(),
    decreases v.len(),
{
    if v.len() > 0 {
        let init = v.drop_last();
        law_summary_keeps_all(init);
        lemma_inserted(sorted_texts(init), v.last());
        assert(v =~= init.push(v.last()));
    } else {
        assert(sorted_texts(v) =~= v);
    }
}

proof fn lemma_inserted(v: Seq<Seq<char>>, x: Seq<char>)
    ensures
        inserted(v, x).to_multiset() == v.to_multiset().insert(x),
    decreases v.len(),
{
    if v.len() > 0 && !text_le(v.last(), x) {
        let init = v.drop_last();
        lemma_inserted(init, x);
        assert(v =~= init.push(v.last()));
        assert(inserted(v, x).to_multiset() =~= v.to_multiset().insert(x));
    }
}

proof fn lemma_text_le_total(a: Seq<char>, b: Seq<char>)
    ensures
        text_le(a, b) || text_le(b, a),
    decreases a.len(),
{
    if a.len() > 0 && b.len() > 0 && a[0] as u32 == b[0] as u32 {
        lemma_text_le_total(a.drop_first(), b.drop_first());
    }
}

proof fn lemma_text_le_transitive(a: Seq<char>, b: Seq<char>, c: Seq<char>)
    requires
        text_le(a, b),
        text_le(b, c),
    ensures
        text_le(a, c),
    decreases a.len(),
{
    if a.len() > 0 && b.len() > 0 && c.len() > 0 && a[0] as u32 == b[0] as u32 && b[0] as u32
        == c[0] as u32 {
        lemma_text_le_transitive(a.drop_first(), b.drop_first(), c.drop_first());
    }
}

pub open spec fn ascending(v: Seq<Seq<char>>) -> bool {
    forall|i: int, j: int| 0 <= i < j < v.len() ==> text_le(#[trigger] v[i], #[trigger] v[j])
}

/// The summary lists the problems in ascending order.
pub proof fn law_summary_is_sorted(v: Seq<Seq<char>>)
    ensures
        ascending(sorted_texts(v)),
    decreases v.len(),
{
    if v.len() > 0 {
        law_summary_is_sorted(v.drop_last());
        lemma_inserted_sorted(sorted_texts(v.drop_last()), v.last());
    }
}

proof fn lemma_inserted_sorted(v: Seq<Seq<char>>, x: Seq<char>)
    requires
        ascending(v),
    ensures
        ascending(inserted(v, x)),
        forall|m: Seq<char>|
            text_le(x, m) && (forall|k: int| 0 <= k < v.len() ==> text_le(#[trigger] v[k], m))
                ==> forall|k: int|
                0 <= k < inserted(v, x).len() ==> #[trigger] text_le(inserted(v, x)[k], m),
    decreases v.len(),
{
    let r = inserted(v, x);
    if v.len() > 0 && !text_le(v.last(), x) {
        let init = v.drop_last();
        assert(ascending(init)) by {
            assert forall|i: int, j: int| 0 <= i < j < init.len() implies text_le(
                #[trigger] init[i],
                #[trigger] init[j],
            ) by {
                assert(text_le(v[i], v[j]));
            }
        }
        lemma_inserted_sorted(init, x);
        let s = inserted(init, x);
        let m = v.last();
        lemma_text_le_total(x, m);
        assert forall|k: int| 0 <= k < init.len() implies text_le(#[trigger] init[k], m) by {
            assert(text_le(v[k], v[v.len() - 1]));
        }
        assert forall|k: int| 0 <= k < s.len() implies #[trigger] text_le(s[k], m) by {}
        assert forall|i: int, j: int| 0 <= i < j < r.len() implies text_le(
            #[trigger] r[i],
            #[trigger] r[j],
        ) by {
            assert(r[i] == s[i]);
            if j < s.len() {
                assert(r[j] == s[j]);
            } else {
                assert(text_le(s[i], m));
            }
        }
        assert forall|m: Seq<char>|
            text_le(x, m) && (forall|k: int|
                0 <= k < v.len() ==> text_le(#[trigger] v[k], m)) implies forall|k: int|
            0 <= k < r.len() ==> #[trigger] text_le(r[k], m) by {
            assert forall|k: int| 0 <= k < init.len() implies text_le(#[trigger] init[k], m) by {
                assert(text_le(v[k], m));
            }
            assert(text_le(v[v.len() - 1], m));
            assert forall|k: int| 0 <= k < r.len() implies #[trigger] text_le(r[k], m) by {
                if k < s.len() {
                    assert(r[k] == s[k]);
                    assert(text_le(s[k], m));
                }
            }
        }
    } else {
        assert forall|i: int, j: int| 0 <= i < j < r.len() implies text_le(
            #[trigger] r[i],
            #[trigger] r[j],
        ) by {
            if j < v.len() {
                assert(text_le(v[i], v[j]));
            } else if i < v.len() - 1 {
                assert(text_le(v[i], v[v.len() - 1]));
                lemma_text_le_transitive(v[i], v[v.len() - 1], x);
            }
        }
        assert forall|m: Seq<char>|
            text_le(x, m) && (forall|k: int|
                0 <= k < v.len() ==> text_le(#[trigger] v[k], m)) implies forall|k: int|
            0 <= k < r.len() ==> #[trigger] text_le(r[k], m) by {
            assert forall|k: int| 0 <= k < r.len() implies #[trigger] text_le(r[k], m) by {
                if k < v.len() {
                    assert(text_le(v[k], m));
                }
            }
        }
    }
}

/// A line of the summary is the volume, a colon and what is wrong with it.
pub proof fn law_lines_of_the_summary(v: Problems, i: int)
    requires
        0 <= i < v.len(),
    ensures
        lines(v).len() == v.len(),
        lines(v)[i] == v[i].0 + ": "@ + v[i].1,
        summary(v) == Some(text::joined(sorted_texts(lines(v)), "; "@)),
        summary(Seq::empty()) is None,
{
}

} // verus!
