//! Files whose size and times are to be read again: each waits once, and they are read in
//! batches by ascending number.
use vstd::prelude::*;
use std::collections::HashMap;
use crate::mft::MetaUpdate;
use crate::sort;
use crate::text;

verus! {

broadcast use {
    vstd::std_specs::hash::group_hash_axioms,
    vstd::seq_lib::group_to_multiset_ensures,
};

/// The queue takes no new file beyond this size.
pub const QUEUE_LIMIT: usize = 500_000;

/// A batch is read when this many files wait.
pub const BATCH_SIZE: usize = 5000;

/// The files that wait, with their 128-bit identifiers where these are known.
#[derive(Debug)]
pub struct StatQueue {
    waiting: HashMap<u64, Option<[u8; 16]>>,
    order: Vec<u64>,
    /// A batch without a single result has been reported.
    reported: bool,
}

pub struct StatQueueView {
    pub waiting: Map<u64, Option<[u8; 16]>>,
    pub reported: bool,
}

impl View for StatQueue {
    type V = StatQueueView;

    closed spec fn view(&self) -> StatQueueView {
        StatQueueView { waiting: self.waiting@, reported: self.reported }
    }
}

/// The files of a batch and their identifiers, place by place.
pub type StatBatch = (Vec<u64>, Vec<Option<[u8; 16]>>);

/// The batch holds exactly the files of `m`, each once and by ascending number, with their
/// identifiers.
pub open spec fn is_batch_of(
    frns: Seq<u64>,
    ids: Seq<Option<[u8; 16]>>,
    m: Map<u64, Option<[u8; 16]>>,
) -> bool {
    &&& forall|i: int, j: int| 0 <= i < j < frns.len() ==> #[trigger] frns[i] < #[trigger] frns[j]
    &&& forall|f: u64| #[trigger] frns.contains(f) <==> m.dom().contains(f)
    &&& ids.len() == frns.len()
    &&& forall|i: int| 0 <= i < frns.len() ==> #[trigger] ids[i] == m[frns[i]]
}

proof fn lemma_no_duplicates_sorted(frns: Seq<u64>, order: Seq<u64>)
    requires
        frns.to_multiset() == order.to_multiset(),
        order.no_duplicates(),
        forall|i: int, j: int| 0 <= i <= j < frns.len() ==> #[trigger] frns[i] <= #[trigger] frns[j],
    ensures
        forall|i: int, j: int| 0 <= i < j < frns.len() ==> #[trigger] frns[i] < #[trigger] frns[j],
        forall|f: u64| #[trigger] frns.contains(f) <==> order.contains(f),
{
    order.lemma_multiset_has_no_duplicates();
    assert forall|i: int, j: int| 0 <= i < j < frns.len() implies #[trigger] frns[i]
        < #[trigger] frns[j] by {
        assert(frns[i] <= frns[j]);
        if frns[i] == frns[j] {
            let f = frns[i];
            let a = frns.take(j);
            let b = frns.skip(j);
            assert(frns =~= a + b);
            vstd::seq_lib::lemma_multiset_commutative(a, b);
            assert(a[i] == f);
            assert(a.contains(f));
            assert(b[0] == f);
            assert(b.contains(f));
            assert(frns.to_multiset().count(f) >= 2);
            assert(order.to_multiset().count(f) <= 1) by {
                if order.to_multiset().count(f) > 0 {
                    assert(order.contains(f));
                    assert(order.to_multiset().contains(f));
                }
            }
        }
    }
    assert forall|f: u64| #[trigger] frns.contains(f) <==> order.contains(f) by {
        assert(frns.contains(f) <==> frns.to_multiset().count(f) > 0);
        assert(order.contains(f) <==> order.to_multiset().count(f) > 0);
    }
}

impl StatQueue {
    /// The order of arrival lists the waiting files, each once.
    pub closed spec fn wf(&self) -> bool {
        &&& self.order@.no_duplicates()
        &&& forall|f: u64| #[trigger] self.order@.contains(f) <==> self.waiting@.dom().contains(f)
        &&& self.order@.len() == self.waiting@.len()
    }

    pub fn new() -> (r: StatQueue)
        ensures
            r.wf(),
            r@.waiting == Map::<u64, Option<[u8; 16]>>::empty(),
            !r@.reported,
    {
        StatQueue { waiting: HashMap::new(), order: Vec::new(), reported: false }
    }

    /// Hands out everything that waits.
    fn drain(&mut self) -> (r: StatBatch)
        requires
            old(self).wf(),
        ensures
            final(self).wf(),
            final(self)@.waiting == Map::<u64, Option<[u8; 16]>>::empty(),
            final(self)@.reported == old(self)@.reported,
            is_batch_of(r.0@, r.1@, old(self)@.waiting),
    {
        let frns = sort::sorted_numbers(&self.order);
        proof {
            lemma_no_duplicates_sorted(frns@, self.order@);
        }
        let mut ids: Vec<Option<[u8; 16]>> = Vec::new();
        let mut i: usize = 0;
        while i < frns.len()
            invariant
                i <= frns.len(),
                forall|f: u64| #[trigger] frns@.contains(f) ==> self.waiting@.dom().contains(f),
                ids@.len() == i,
                forall|k: int| 0 <= k < i ==> #[trigger] ids@[k] == self.waiting@[frns@[k]],
            decreases frns.len() - i,
        {
            let f: u64 = frns[i];
            assert(frns@.contains(f));
            let id = match self.waiting.get(&f) {
                Some(id) => *id,
                None => None,
            };
            ids.push(id);
            i += 1;
        }
        self.waiting.clear();
        self.order.clear();
        (frns, ids)
    }

    /// A file is to be read again. A batch comes back when enough files wait.
    pub fn on_item(&mut self, frn: u64, id: Option<[u8; 16]>) -> (r: Option<StatBatch>)
        requires
            old(self).wf(),
        ensures
            final(self).wf(),
            final(self)@.reported == old(self)@.reported,
            ({
                let grown = if old(self)@.waiting.len() < QUEUE_LIMIT {
                    old(self)@.waiting.insert(frn, id)
                } else {
                    old(self)@.waiting
                };
                match r {
                    Some(b) => {
                        &&& grown.len() >= BATCH_SIZE
                        &&& is_batch_of(b.0@, b.1@, grown)
                        &&& final(self)@.waiting == Map::<u64, Option<[u8; 16]>>::empty()
                    },
                    None => {
                        &&& grown.len() < BATCH_SIZE
                        &&& final(self)@.waiting == grown
                    },
                }
            }),
    {
        if self.waiting.len() < QUEUE_LIMIT {
            let known = self.waiting.contains_key(&frn);
            let ghost before = self.order@;
            let ghost had = self.waiting@;
            self.waiting.insert(frn, id);
            if !known {
                self.order.push(frn);
                proof {
                    assert(!before.contains(frn));
                    assert forall|f: u64| #[trigger] self.order@.contains(f) <==> (before.contains(
                        f,
                    ) || f == frn) by {
                        if before.contains(f) {
                            let k = choose|k: int| 0 <= k < before.len() && before[k] == f;
                            assert(self.order@[k] == f);
                        }
                        assert(self.order@[before.len() as int] == frn);
                        if self.order@.contains(f) {
                            let k = choose|k: int|
                                0 <= k < self.order@.len() && self.order@[k] == f;
                            if k < before.len() {
                                assert(before[k] == f);
                            }
                        }
                    }
                    assert forall|f: u64| #[trigger] self.order@.contains(f)
                        <==> self.waiting@.dom().contains(f) by {
                        assert(before.contains(f) <==> had.dom().contains(f));
                    }
                    assert(self.order@.no_duplicates()) by {
                        assert forall|i: int, j: int|
                            0 <= i < self.order@.len() && 0 <= j < self.order@.len() && i
                                != j implies self.order@[i] != self.order@[j] by {
                            if i < before.len() {
                                assert(before.contains(before[i]));
                            }
                            if j < before.len() {
                                assert(before.contains(before[j]));
                            }
                        }
                    }
                }
            } else {
                proof {
                    assert(self.waiting@.dom() =~= had.dom());
                    assert forall|f: u64| #[trigger] self.order@.contains(f)
                        <==> self.waiting@.dom().contains(f) by {
                        assert(before.contains(f) <==> had.dom().contains(f));
                    }
                }
            }
        }
        if self.waiting.len() >= BATCH_SIZE {
            Some(self.drain())
        } else {
            None
        }
    }

    /// Nothing came for a while, or nothing will come any more: what waits is handed out.
    pub fn on_pause(&mut self) -> (r: Option<StatBatch>)
        requires
            old(self).wf(),
        ensures
            final(self).wf(),
            final(self)@.reported == old(self)@.reported,
            final(self)@.waiting == Map::<u64, Option<[u8; 16]>>::empty(),
            match r {
                Some(b) => old(self)@.waiting.len() > 0 && is_batch_of(
                    b.0@,
                    b.1@,
                    old(self)@.waiting,
                ),
                None => old(self)@.waiting.len() == 0,
            },
    {
        if self.waiting.len() > 0 {
            Some(self.drain())
        } else {
            proof {
                let m = self.waiting@;
                assert(m.dom().len() == 0);
                assert(m.dom() =~= Set::<u64>::empty());
                assert(m =~= Map::<u64, Option<[u8; 16]>>::empty());
            }
            None
        }
    }

    /// A batch brought `found` results: whether it is time to report that nothing can be read,
    /// which happens once.
    pub fn on_results(&mut self, found: usize) -> (report: bool)
        requires
            old(self).wf(),
        ensures
            final(self).wf(),
            final(self)@.waiting == old(self)@.waiting,
            report == (found == 0 && !old(self)@.reported),
            final(self)@.reported == (old(self)@.reported || found == 0),
    {
        if found == 0 && !self.reported {
            self.reported = true;
            true
        } else {
            false
        }
    }
}

/// The updates that reach the index: those of files that have an entry, with its number.
/// `entry_of` gives the entry of each file of the batch.
pub open spec fn targets(
    updates: Seq<MetaUpdate>,
    entry_of: Seq<Option<usize>>,
) -> Seq<MetaUpdate>
    decreases updates.len(),
{
    if updates.len() == 0 {
        Seq::empty()
    } else {
        let rest = targets(updates.drop_last(), entry_of);
        let u = updates.last();
        if u.0 < entry_of.len() {
            match entry_of[u.0 as int] {
                Some(e) => rest.push((e, u.1, u.2, u.3)),
                None => rest,
            }
        } else {
            rest
        }
    }
}

pub fn stat_targets(updates: &Vec<MetaUpdate>, entry_of: &Vec<Option<usize>>) -> (r: Vec<
    MetaUpdate,
>)
    ensures
        r@ == targets(updates@, entry_of@),
{
    let mut out: Vec<MetaUpdate> = Vec::new();
    let mut i: usize = 0;
    while i < updates.len()
        invariant
            i <= updates.len(),
            out@ == targets(updates@.take(i as int), entry_of@),
        decreases updates.len() - i,
    {
        let u = updates[i];
        proof {
            assert(updates@.take(i + 1).drop_last() =~= updates@.take(i as int));
        }
        if u.0 < entry_of.len() {
            match entry_of[u.0] {
                Some(e) => {
                    out.push((e, u.1, u.2, u.3));
                },
                None => {},
            }
        }
        i += 1;
    }
    assert(updates@.take(updates@.len() as int) =~= updates@);
    out
}

/// A file that was read again is updated under the entry that it has in the index, with the size and
/// times that were read; a file without an entry changes nothing.
pub proof fn law_results_go_to_their_entries(
    updates: Seq<MetaUpdate>,
    entry_of: Seq<Option<usize>>,
    t: MetaUpdate,
)
    ensures
        targets(updates, entry_of).contains(t) <==> exists|k: int|
            0 <= k < updates.len() && (#[trigger] updates[k]).0 < entry_of.len()
                && entry_of[updates[k].0 as int] == Some(t.0) && t.1 == updates[k].1 && t.2
                == updates[k].2 && t.3 == updates[k].3,
    decreases updates.len(),
{
    let all = targets(updates, entry_of);
    if updates.len() > 0 {
        let init = updates.drop_last();
        let rest = targets(init, entry_of);
        law_results_go_to_their_entries(init, entry_of, t);
        assert(updates[updates.len() - 1] == updates.last());
        if rest.contains(t) {
            let i = choose|i: int| 0 <= i < rest.len() && rest[i] == t;
            assert(all[i] == t);
            let k = choose|k: int|
                0 <= k < init.len() && (#[trigger] init[k]).0 < entry_of.len()
                    && entry_of[init[k].0 as int] == Some(t.0) && t.1 == init[k].1 && t.2
                    == init[k].2 && t.3 == init[k].3;
            assert(updates[k] == init[k]);
        }
        if all.contains(t) {
            let i = choose|i: int| 0 <= i < all.len() && all[i] == t;
            if i < rest.len() {
                assert(rest[i] == t);
            }
        }
        if all.len() > rest.len() {
            assert(all[rest.len() as int] == all.last());
        }
        if exists|k: int|
            0 <= k < updates.len() && (#[trigger] updates[k]).0 < entry_of.len()
                && entry_of[updates[k].0 as int] == Some(t.0) && t.1 == updates[k].1 && t.2
                == updates[k].2 && t.3 == updates[k].3 {
            let k = choose|k: int|
                0 <= k < updates.len() && (#[trigger] updates[k]).0 < entry_of.len()
                    && entry_of[updates[k].0 as int] == Some(t.0) && t.1 == updates[k].1 && t.2
                    == updates[k].2 && t.3 == updates[k].3;
            if k < init.len() {
                assert(init[k] == updates[k]);
            }
        }
    }
}

/// A batch holds each queued file once, in the order of the numbers, beside the identifier that it
/// was queued with, and no other file.
pub proof fn law_batch_of_the_queue(
    frns: Seq<u64>,
    ids: Seq<Option<[u8; 16]>>,
    m: Map<u64, Option<[u8; 16]>>,
    f: u64,
)
    requires
        is_batch_of(frns, ids, m),
    ensures
        m.dom().contains(f) <==> exists|i: int|
            0 <= i < frns.len() && #[trigger] frns[i] == f && ids[i] == m[f],
        ids.len() == frns.len(),
        forall|i: int, j: int|
            0 <= i < j < frns.len() ==> #[trigger] frns[i] < #[trigger] frns[j],
{
    assert(frns.contains(f) <==> m.dom().contains(f));
    if m.dom().contains(f) {
        let i = choose|i: int| 0 <= i < frns.len() && frns[i] == f;
        assert(ids[i] == m[frns[i]]);
    }
}

} // verus!
