//! The background pass that completes sizes and times after a fast first scan: what is pending on
//! which volume, which directories are listed, which files must be opened one by one, how far the
//! pass has come and how it ends.
use vstd::prelude::*;
use std::collections::{HashMap, HashSet};
use crate::mft::MetaUpdate;
use crate::nt_dir_query::DirMetaRec;
use crate::overlay::OverlayRec;
use crate::sort;
use crate::text;

verus! {

broadcast use vstd::std_specs::hash::group_hash_axioms;

/// What the scan for pending entries sees of one index entry; `frn` is 0 where the entry has no
/// file reference number.
#[derive(Debug, Clone, Copy, PartialEq, Eq, Structural)]
pub struct ScanEntry {
    pub is_dir: bool,
    pub size: u64,
    pub frn: u64,
    pub letter: char,
    pub dir_idx: u32,
}

/// What is pending on one volume: the files with their entry numbers, and all directories.
#[derive(Debug)]
pub struct VolPending {
    pub letter: char,
    pub files: Vec<(u64, u64)>,
    pub dirs: Vec<u64>,
}

pub struct VolPendingView {
    pub letter: char,
    pub files: Seq<(u64, u64)>,
    pub dirs: Seq<u64>,
}

impl View for VolPending {
    type V = VolPendingView;

    open spec fn view(&self) -> VolPendingView {
        VolPendingView { letter: self.letter, files: self.files@, dirs: self.dirs@ }
    }
}

pub open spec fn volumes(v: Seq<VolPending>) -> Seq<VolPendingView> {
    v.map_values(|p: VolPending| p@)
}

/// An entry whose size is still to be found: a file of size 0 with a reference number.
pub open spec fn pending(e: ScanEntry) -> bool {
    e.frn != 0 && !e.is_dir && e.size == 0
}

/// The pending files of the volume `c`, in index order.
pub open spec fn files_of(es: Seq<ScanEntry>, c: char) -> Seq<(u64, u64)>
    decreases es.len(),
{
    if es.len() == 0 {
        Seq::empty()
    } else {
        let rest = files_of(es.drop_last(), c);
        let e = es.last();
        if pending(e) && e.letter == c {
            rest.push(((es.len() - 1) as u64, e.frn))
        } else {
            rest
        }
    }
}

/// The directories of the volume `c` that have a reference number, in index order.
pub open spec fn dirs_of(es: Seq<ScanEntry>, c: char) -> Seq<u64>
    decreases es.len(),
{
    if es.len() == 0 {
        Seq::empty()
    } else {
        let rest = dirs_of(es.drop_last(), c);
        let e = es.last();
        if e.frn != 0 && e.is_dir && e.letter == c {
            rest.push(e.frn)
        } else {
            rest
        }
    }
}

/// Some entry with a reference number stands on the volume `c`.
pub open spec fn has_volume(es: Seq<ScanEntry>, c: char) -> bool {
    exists|i: int| 0 <= i < es.len() && (#[trigger] es[i]).frn != 0 && es[i].letter == c
}

pub open spec fn lists_volume(vols: Seq<VolPendingView>, c: char) -> bool {
    exists|i: int| 0 <= i < vols.len() && (#[trigger] vols[i]).letter == c
}

/// The plan for the entries `es`: one slot for each volume, by ascending letter, with what is
/// pending there.
pub open spec fn is_plan(es: Seq<ScanEntry>, vols: Seq<VolPendingView>) -> bool {
    &&& forall|i: int, j: int|
        0 <= i < j < vols.len() ==> ((#[trigger] vols[i]).letter as u32) < ((
        #[trigger] vols[j]).letter as u32)
    &&& forall|c: char| #[trigger] has_volume(es, c) <==> lists_volume(vols, c)
    &&& forall|i: int|
        0 <= i < vols.len() ==> (#[trigger] vols[i]).files == files_of(es, vols[i].letter)
            && vols[i].dirs == dirs_of(es, vols[i].letter)
}

proof fn lemma_unseen_volume(es: Seq<ScanEntry>, c: char)
    requires
        !has_volume(es, c),
    ensures
        files_of(es, c) == Seq::<(u64, u64)>::empty(),
        dirs_of(es, c) == Seq::<u64>::empty(),
    decreases es.len(),
{
    if es.len() > 0 {
        let init = es.drop_last();
        assert(es[es.len() - 1] == es.last());
        assert(!has_volume(init, c)) by {
            if has_volume(init, c) {
                let i = choose|i: int|
                    0 <= i < init.len() && (#[trigger] init[i]).frn != 0 && init[i].letter == c;
                assert(es[i] == init[i]);
            }
        }
        lemma_unseen_volume(init, c);
    }
}

proof fn lemma_one_more(es: Seq<ScanEntry>, c: char)
    requires
        es.len() > 0,
    ensures
        has_volume(es, c) <==> has_volume(es.drop_last(), c) || (es.last().frn != 0
            && es.last().letter == c),
{
    let init = es.drop_last();
    if has_volume(init, c) {
        let i = choose|i: int|
            0 <= i < init.len() && (#[trigger] init[i]).frn != 0 && init[i].letter == c;
        assert(es[i] == init[i]);
    }
    if es.last().frn != 0 && es.last().letter == c {
        assert(es[es.len() - 1] == es.last());
    }
    if has_volume(es, c) {
        let i = choose|i: int|
            0 <= i < es.len() && (#[trigger] es[i]).frn != 0 && es[i].letter == c;
        if i < es.len() - 1 {
            assert(init[i] == es[i]);
        }
    }
}

/// Adds the entry number `n` to the slot of its volume, which is made where there is none.
fn add_entry(vols: &mut Vec<VolPending>, n: u64, e: ScanEntry, Ghost(es): Ghost<Seq<ScanEntry>>)
    requires
        e.frn != 0,
        n == es.len(),
        is_plan(es, volumes(old(vols)@)),
    ensures
        is_plan(es.push(e), volumes(final(vols)@)),
{
    let ghost before = volumes(vols@);
    let ghost after = es.push(e);
    proof {
        assert(after.drop_last() =~= es);
    }
    let mut at: usize = 0;
    while at < vols.len() && (vols[at].letter as u32) < (e.letter as u32)
        invariant
            at <= vols.len(),
            before == volumes(vols@),
            *vols == *old(vols),
            forall|k: int|
                0 <= k < at ==> ((#[trigger] before[k]).letter as u32) < (e.letter as u32),
        decreases vols.len() - at,
    {
        proof {
            assert(before[at as int].letter == vols@[at as int].letter);
        }
        at += 1;
    }
    proof {
        if at < vols@.len() {
            assert(before[at as int].letter == vols@[at as int].letter);
        }
    }
    let found = at < vols.len() && vols[at].letter == e.letter;
    proof {
        assert(found <==> lists_volume(before, e.letter)) by {
            if found {
                assert(before[at as int].letter == e.letter);
            }
            if lists_volume(before, e.letter) {
                let i = choose|i: int| 0 <= i < before.len() && (#[trigger] before[i]).letter
                    == e.letter;
                assert(i >= at);
                if i > at {
                    assert((before[at as int].letter as u32) < (before[i].letter as u32));
                }
            }
        }
        assert(found <==> has_volume(es, e.letter));
    }
    if !found {
        proof {
            lemma_unseen_volume(es, e.letter);
        }
        vols.insert(at, VolPending { letter: e.letter, files: Vec::new(), dirs: Vec::new() });
    }
    let ghost mid = volumes(vols@);
    proof {
        if found {
            assert(mid =~= before);
        } else {
            let slot = VolPendingView {
                letter: e.letter,
                files: Seq::empty(),
                dirs: Seq::empty(),
            };
            assert(mid[at as int].files =~= slot.files);
            assert(mid[at as int].dirs =~= slot.dirs);
            assert(mid =~= before.insert(at as int, slot));
        }
        assert forall|i: int, j: int| 0 <= i < j < mid.len() implies ((
        #[trigger] mid[i]).letter as u32) < ((#[trigger] mid[j]).letter as u32) by {
            if !found {
                let i0 = if i < at { i } else { i - 1 };
                let j0 = if j < at { j } else { j - 1 };
                if i != at {
                    assert(mid[i] == before[i0]);
                }
                if j != at {
                    assert(mid[j] == before[j0]);
                }
                if i == at {
                    if at < before.len() {
                        if j0 > at {
                            assert((before[at as int].letter as u32) < (before[j0].letter as u32));
                        }
                    }
                }
            }
        }
        assert forall|i: int| 0 <= i < mid.len() && i != at implies (#[trigger] mid[i]).letter
            != e.letter by {
            if i < at {
                assert((mid[i].letter as u32) < (mid[at as int].letter as u32));
            } else {
                assert((mid[at as int].letter as u32) < (mid[i].letter as u32));
            }
        }
        assert forall|i: int| 0 <= i < mid.len() implies (#[trigger] mid[i]).files == files_of(
            es,
            mid[i].letter,
        ) && mid[i].dirs == dirs_of(es, mid[i].letter) by {
            if !found && i != at {
                let i0 = if i < at { i } else { i - 1 };
                assert(mid[i] == before[i0]);
            }
        }
        assert forall|c: char| lists_volume(mid, c) <==> (lists_volume(before, c) || c
            == e.letter) by {
            if lists_volume(mid, c) {
                let i = choose|i: int| 0 <= i < mid.len() && (#[trigger] mid[i]).letter == c;
                if i != at && !found {
                    let i0 = if i < at { i } else { i - 1 };
                    assert(before[i0].letter == c);
                } else if found {
                    assert(before[i].letter == c);
                }
            }
            if lists_volume(before, c) {
                let i = choose|i: int| 0 <= i < before.len() && (#[trigger] before[i]).letter == c;
                let i1 = if found || i < at { i } else { i + 1 };
                assert(mid[i1].letter == c);
            }
            if c == e.letter {
                assert(mid[at as int].letter == c);
            }
        }
    }
    if e.is_dir {
        let slot = &mut vols[at];
        slot.dirs.push(e.frn);
    } else if e.size == 0 {
        let slot = &mut vols[at];
        slot.files.push((n, e.frn));
    }
    proof {
        let end = volumes(vols@);
        assert forall|i: int| 0 <= i < mid.len() implies (#[trigger] end[i]).letter
            == mid[i].letter by {
            assert(vols@[i]@.letter == mid[i].letter);
        }
        assert forall|i: int| 0 <= i < mid.len() && i != at implies #[trigger] end[i] == mid[i] by {
            assert(vols@[i]@ == mid[i]);
        }
        assert(after.last() == e);
        assert(end[at as int].files =~= files_of(after, e.letter));
        assert(end[at as int].dirs =~= dirs_of(after, e.letter));
        assert forall|i: int| 0 <= i < end.len() implies (#[trigger] end[i]).files == files_of(
            after,
            end[i].letter,
        ) && end[i].dirs == dirs_of(after, end[i].letter) by {
            assert(end[i].letter == mid[i].letter);
        }
        assert forall|c: char| #[trigger] has_volume(after, c) <==> lists_volume(end, c) by {
            lemma_one_more(after, c);
            if lists_volume(mid, c) {
                let i = choose|i: int| 0 <= i < mid.len() && (#[trigger] mid[i]).letter == c;
                assert(end[i].letter == c);
            }
            if lists_volume(end, c) {
                let i = choose|i: int| 0 <= i < end.len() && (#[trigger] end[i]).letter == c;
                assert(mid[i].letter == c);
            }
        }
        assert forall|i: int, j: int| 0 <= i < j < end.len() implies ((
        #[trigger] end[i]).letter as u32) < ((#[trigger] end[j]).letter as u32) by {
            assert(end[i].letter == mid[i].letter);
            assert(end[j].letter == mid[j].letter);
        }
    }
}

/// Sorts the entries of the index by volume and picks what is pending on each.
pub fn collect_pending(es: &Vec<ScanEntry>) -> (r: Vec<VolPending>)
    ensures
        is_plan(es@, volumes(r@)),
{
    let mut vols: Vec<VolPending> = Vec::new();
    let mut i: usize = 0;
    proof {
        assert(volumes(vols@) =~= Seq::empty());
        assert(es@.take(0) =~= Seq::empty());
        assert(is_plan(es@.take(0), volumes(vols@)));
    }
    while i < es.len()
        invariant
            i <= es.len(),
            is_plan(es@.take(i as int), volumes(vols@)),
        decreases es.len() - i,
    {
        let e = es[i];
        let ghost seen = es@.take(i as int);
        proof {
            assert(es@.take(i + 1) =~= seen.push(e));
        }
        if e.frn != 0 {
            add_entry(&mut vols, i as u64, e, Ghost(seen));
        } else {
            proof {
                let more = seen.push(e);
                assert(more.drop_last() =~= seen);
                assert forall|c: char| #[trigger] has_volume(more, c) <==> has_volume(seen, c) by {
                    lemma_one_more(more, c);
                }
            }
        }
        i += 1;
    }
    assert(es@.take(es@.len() as int) =~= es@);
    vols
}

// ---- resuming -----------------------------------------------------------------------------

/// The files whose entry numbers are not among those already done.
pub open spec fn not_done(files: Seq<(u64, u64)>, done: Set<u64>) -> Seq<(u64, u64)>
    decreases files.len(),
{
    if files.len() == 0 {
        Seq::empty()
    } else {
        let rest = not_done(files.drop_last(), done);
        if done.contains(files.last().0) {
            rest
        } else {
            rest.push(files.last())
        }
    }
}

fn keep_not_done(files: &Vec<(u64, u64)>, done: &HashSet<u64>) -> (r: Vec<(u64, u64)>)
    ensures
        r@ == not_done(files@, done@),
{
    let mut out: Vec<(u64, u64)> = Vec::new();
    let mut i: usize = 0;
    while i < files.len()
        invariant
            i <= files.len(),
            out@ == not_done(files@.take(i as int), done@),
        decreases files.len() - i,
    {
        let f = files[i];
        proof {
            assert(files@.take(i + 1).drop_last() =~= files@.take(i as int));
        }
        if !done.contains(&f.0) {
            out.push(f);
        }
        i += 1;
    }
    assert(files@.take(files@.len() as int) =~= files@);
    out
}

/// Takes the entries that an earlier run has completed out of the plan.
pub fn drop_done(vols: &mut Vec<VolPending>, done: &HashSet<u64>)
    ensures
        volumes(final(vols)@) == volumes(old(vols)@).map_values(
            |v: VolPendingView|
                VolPendingView { files: not_done(v.files, done@), ..v },
        ),
{
    let ghost before = volumes(vols@);
    let n: usize = vols.len();
    let mut i: usize = 0;
    while i < n
        invariant
            n == vols@.len(),
            n == old(vols)@.len(),
            before == volumes(old(vols)@),
            i <= n,
            forall|k: int|
                0 <= k < i ==> (#[trigger] vols@[k])@ == (VolPendingView {
                    files: not_done(before[k].files, done@),
                    ..before[k]
                }),
            forall|k: int| i <= k < n ==> #[trigger] vols@[k] == old(vols)@[k],
        decreases n - i,
    {
        let kept = keep_not_done(&vols[i].files, done);
        proof {
            assert(before[i as int] == old(vols)@[i as int]@);
        }
        let slot = &mut vols[i];
        slot.files = kept;
        i += 1;
    }
    proof {
        assert(volumes(vols@) =~= before.map_values(
            |v: VolPendingView|
                VolPendingView { files: not_done(v.files, done@), ..v },
        ));
    }
}

/// Nothing that is done is pending again, and nothing else is lost.
pub proof fn law_resume(files: Seq<(u64, u64)>, done: Set<u64>, f: (u64, u64))
    ensures
        not_done(files, done).contains(f) <==> files.contains(f) && !done.contains(f.0),
        not_done(files, done).len() <= files.len(),
    decreases files.len(),
{
    if files.len() > 0 {
        let init = files.drop_last();
        let rest = not_done(init, done);
        law_resume(init, done, f);
        assert(files =~= init.push(files.last()));
        if not_done(files, done).contains(f) {
            let k = choose|k: int|
                0 <= k < not_done(files, done).len() && #[trigger] not_done(files, done)[k] == f;
            if k < rest.len() {
                assert(rest[k] == f);
                assert(rest.contains(f));
                let m = choose|m: int| 0 <= m < init.len() && #[trigger] init[m] == f;
                assert(files[m] == f);
            } else {
                assert(files[files.len() - 1] == f);
            }
        }
        if files.contains(f) && !done.contains(f.0) {
            let m = choose|m: int| 0 <= m < files.len() && #[trigger] files[m] == f;
            if m < init.len() {
                assert(init[m] == f);
                assert(rest.contains(f));
                let k = choose|k: int| 0 <= k < rest.len() && #[trigger] rest[k] == f;
                assert(not_done(files, done)[k] == f);
            } else {
                assert(not_done(files, done).last() == f);
                assert(not_done(files, done)[not_done(files, done).len() - 1] == f);
            }
        }
    }
}

/// How many files the plan holds.
pub open spec fn pending_count(vols: Seq<VolPendingView>) -> nat
    decreases vols.len(),
{
    if vols.len() == 0 {
        0
    } else {
        pending_count(vols.drop_last()) + vols.last().files.len()
    }
}

proof fn lemma_count_prefix(vols: Seq<VolPendingView>, i: int)
    requires
        0 <= i <= vols.len(),
    ensures
        pending_count(vols.take(i)) <= pending_count(vols),
    decreases vols.len() - i,
{
    if i == vols.len() {
        assert(vols.take(i) =~= vols);
    } else {
        lemma_count_prefix(vols, i + 1);
        assert(vols.take(i + 1).drop_last() =~= vols.take(i));
    }
}

/// How many files the plan holds; no plan that fits into memory has more than the count can say.
pub fn total_pending(vols: &Vec<VolPending>) -> (r: u64)
    requires
        pending_count(volumes(vols@)) <= u64::MAX,
    ensures
        r == pending_count(volumes(vols@)),
{
    let ghost all = volumes(vols@);
    let mut n: u64 = 0;
    let mut i: usize = 0;
    while i < vols.len()
        invariant
            i <= vols.len(),
            all == volumes(vols@),
            pending_count(all) <= u64::MAX,
            n == pending_count(all.take(i as int)),
        decreases vols.len() - i,
    {
        proof {
            assert(all.take(i + 1).drop_last() =~= all.take(i as int));
            assert(all.take(i + 1).last() == vols@[i as int]@);
            lemma_count_prefix(all, i + 1);
        }
        n += vols[i].files.len() as u64;
        i += 1;
    }
    assert(all.take(all.len() as int) =~= all);
    n
}

// ---- one volume ---------------------------------------------------------------------------

/// The directory of some pending file has the reference number `f`; `dir_frns` holds the number
/// of each directory of the index.
pub open spec fn is_parent(
    files: Seq<(u64, u64)>,
    es: Seq<ScanEntry>,
    dir_frns: Seq<u64>,
    f: u64,
) -> bool {
    exists|k: int|
        0 <= k < files.len() && es[(#[trigger] files[k]).0 as int].dir_idx < dir_frns.len()
            && dir_frns[es[files[k].0 as int].dir_idx as int] == f
}

/// The directories that hold a pending file, in the order of `dirs`.
pub open spec fn wanted_dirs(
    dirs: Seq<u64>,
    files: Seq<(u64, u64)>,
    es: Seq<ScanEntry>,
    dir_frns: Seq<u64>,
) -> Seq<u64>
    decreases dirs.len(),
{
    if dirs.len() == 0 {
        Seq::empty()
    } else {
        let rest = wanted_dirs(dirs.drop_last(), files, es, dir_frns);
        if is_parent(files, es, dir_frns, dirs.last()) {
            rest.push(dirs.last())
        } else {
            rest
        }
    }
}

/// The directories to list on a volume: those that hold a pending file, by ascending number.
pub fn dirs_to_list(vol: &VolPending, es: &Vec<ScanEntry>, dir_frns: &Vec<u64>) -> (r: Vec<u64>)
    requires
        forall|k: int| 0 <= k < vol.files@.len() ==> (#[trigger] vol.files@[k]).0 < es@.len(),
    ensures
        forall|i: int, j: int| 0 <= i <= j < r@.len() ==> #[trigger] r@[i] <= #[trigger] r@[j],
        r@.to_multiset() == wanted_dirs(vol.dirs@, vol.files@, es@, dir_frns@).to_multiset(),
{
    let mut parents: HashSet<u64> = HashSet::new();
    let mut i: usize = 0;
    while i < vol.files.len()
        invariant
            i <= vol.files.len(),
            forall|k: int| 0 <= k < vol.files@.len() ==> (#[trigger] vol.files@[k]).0 < es@.len(),
            forall|f: u64|
                parents@.contains(f) <==> #[trigger] is_parent(
                    vol.files@.take(i as int),
                    es@,
                    dir_frns@,
                    f,
                ),
        decreases vol.files.len() - i,
    {
        let file = vol.files[i];
        let count: usize = es.len();
        assert(vol.files@[i as int].0 < count);
        let at: u32 = es[file.0 as usize].dir_idx;
        let ghost seen = vol.files@.take(i as int);
        let ghost more = vol.files@.take(i + 1);
        let ghost known = parents@;
        if (at as usize) < dir_frns.len() {
            parents.insert(dir_frns[at as usize]);
        }
        proof {
            assert forall|f: u64| parents@.contains(f) <==> #[trigger] is_parent(
                more,
                es@,
                dir_frns@,
                f,
            ) by {
                assert(more[i as int] == file);
                assert(known.contains(f) <==> is_parent(seen, es@, dir_frns@, f));
                if is_parent(seen, es@, dir_frns@, f) {
                    let k = choose|k: int|
                        0 <= k < seen.len() && es@[(#[trigger] seen[k]).0 as int].dir_idx
                            < dir_frns@.len() && dir_frns@[es@[seen[k].0 as int].dir_idx as int]
                            == f;
                    assert(more[k] == seen[k]);
                }
                if is_parent(more, es@, dir_frns@, f) {
                    let k = choose|k: int|
                        0 <= k < more.len() && es@[(#[trigger] more[k]).0 as int].dir_idx
                            < dir_frns@.len() && dir_frns@[es@[more[k].0 as int].dir_idx as int]
                            == f;
                    if k < seen.len() {
                        assert(seen[k] == more[k]);
                    }
                }
            }
        }
        i += 1;
    }
    assert(vol.files@.take(vol.files@.len() as int) =~= vol.files@);
    let mut wanted: Vec<u64> = Vec::new();
    let mut j: usize = 0;
    while j < vol.dirs.len()
        invariant
            j <= vol.dirs.len(),
            forall|f: u64|
                parents@.contains(f) <==> #[trigger] is_parent(vol.files@, es@, dir_frns@, f),
            wanted@ == wanted_dirs(vol.dirs@.take(j as int), vol.files@, es@, dir_frns@),
        decreases vol.dirs.len() - j,
    {
        let d: u64 = vol.dirs[j];
        proof {
            assert(vol.dirs@.take(j + 1).drop_last() =~= vol.dirs@.take(j as int));
            assert(parents@.contains(d) <==> is_parent(vol.files@, es@, dir_frns@, d));
        }
        if parents.contains(&d) {
            wanted.push(d);
        }
        j += 1;
    }
    assert(vol.dirs@.take(vol.dirs@.len() as int) =~= vol.dirs@);
    sort::sorted_numbers(&wanted)
}

/// How many files count as done after `cur` of `total` directories, in proportion.
pub open spec fn projected_files(cur: int, total: int, files: int) -> int {
    let product = if cur * files > u64::MAX {
        u64::MAX as int
    } else {
        cur * files
    };
    product / (if total > 1 { total } else { 1 })
}

/// The projected number of done files, and by how much it has grown since the last report.
pub fn progress_step(last: u64, cur: u64, total: u64, files: u64) -> (r: (u64, u64))
    ensures
        r.0 == projected_files(cur as int, total as int, files as int),
        r.1 == (if r.0 > last {
            r.0 - last
        } else {
            0
        }),
{
    assert(cur as int * files as int <= u64::MAX as int * u64::MAX as int) by (nonlinear_arith)
        requires
            0 <= cur <= u64::MAX,
            0 <= files <= u64::MAX,
    ;
    let wide: u128 = (cur as u128) * (files as u128);
    let product: u64 = if wide > u64::MAX as u128 {
        u64::MAX
    } else {
        wide as u64
    };
    let parts: u64 = if total > 1 {
        total
    } else {
        1
    };
    let projected: u64 = product / parts;
    let step: u64 = if projected > last {
        projected - last
    } else {
        0
    };
    (projected, step)
}

/// The projection grows with the directories and never passes the number of pending files.
pub proof fn law_progress(cur: int, more: int, total: int, files: int)
    requires
        0 <= cur <= more <= total <= u64::MAX,
        0 <= files <= u64::MAX,
    ensures
        projected_files(cur, total, files) <= projected_files(more, total, files) <= files,
{
    let parts = if total > 1 {
        total
    } else {
        1
    };
    assert(cur * files <= more * files) by (nonlinear_arith)
        requires
            0 <= cur <= more,
            0 <= files,
    ;
    let a = if cur * files > u64::MAX {
        u64::MAX as int
    } else {
        cur * files
    };
    let b = if more * files > u64::MAX {
        u64::MAX as int
    } else {
        more * files
    };
    assert(a / parts <= b / parts) by (nonlinear_arith)
        requires
            a <= b,
            parts > 0,
    ;
    assert(b <= files * parts) by {
        assert(more * files <= files * parts) by (nonlinear_arith)
            requires
                0 <= more <= parts,
                0 <= files,
        ;
    }
    assert(b / parts <= files) by (nonlinear_arith)
        requires
            b <= files * parts,
            parts > 0,
    ;
}

/// The entry that the reference number `frn` leads to: the last pending file with it.
pub open spec fn entry_of(files: Seq<(u64, u64)>, frn: u64) -> Option<u64>
    decreases files.len(),
{
    if files.len() == 0 {
        None
    } else if files.last().1 == frn {
        Some(files.last().0)
    } else {
        entry_of(files.drop_last(), frn)
    }
}

/// Some listing mentions `frn`.
pub open spec fn listed(recs: Seq<DirMetaRec>, frn: u64) -> bool {
    exists|k: int| 0 <= k < recs.len() && (#[trigger] recs[k]).0 == frn
}

/// What the listings say about pending files: the first record of each, with the number of the
/// index entry in place of the reference number.
pub open spec fn hits(recs: Seq<DirMetaRec>, files: Seq<(u64, u64)>) -> Seq<DirMetaRec>
    decreases recs.len(),
{
    if recs.len() == 0 {
        Seq::empty()
    } else {
        let init = recs.drop_last();
        let m = recs.last();
        match entry_of(files, m.0) {
            Some(idx) if !listed(init, m.0) => hits(init, files).push((idx, m.1, m.2, m.3)),
            _ => hits(init, files),
        }
    }
}

/// The pending files that no listing mentions.
pub open spec fn unlisted(files: Seq<(u64, u64)>, recs: Seq<DirMetaRec>) -> Seq<(u64, u64)>
    decreases files.len(),
{
    if files.len() == 0 {
        Seq::empty()
    } else {
        let rest = unlisted(files.drop_last(), recs);
        if listed(recs, files.last().1) {
            rest
        } else {
            rest.push(files.last())
        }
    }
}

proof fn lemma_listed_push(recs: Seq<DirMetaRec>, m: DirMetaRec, f: u64)
    ensures
        listed(recs.push(m), f) <==> listed(recs, f) || m.0 == f,
{
    let more = recs.push(m);
    if listed(recs, f) {
        let k = choose|k: int| 0 <= k < recs.len() && (#[trigger] recs[k]).0 == f;
        assert(more[k].0 == f);
    }
    assert(more[recs.len() as int] == m);
    if listed(more, f) {
        let k = choose|k: int| 0 <= k < more.len() && (#[trigger] more[k]).0 == f;
        if k < recs.len() {
            assert(recs[k].0 == f);
        }
    }
}

/// Turns directory listings into updates of the index, and names the files that are left for
/// opening one by one.
pub fn match_listings(files: &Vec<(u64, u64)>, recs: &Vec<DirMetaRec>) -> (r: (
    Vec<DirMetaRec>,
    Vec<(u64, u64)>,
))
    ensures
        r.0@ == hits(recs@, files@),
        r.1@ == unlisted(files@, recs@),
{
    let mut table: HashMap<u64, u64> = HashMap::new();
    let mut i: usize = 0;
    while i < files.len()
        invariant
            i <= files.len(),
            forall|f: u64|
                table@.dom().contains(f) <==> (#[trigger] entry_of(files@.take(i as int), f))
                    is Some,
            forall|f: u64|
                table@.dom().contains(f) ==> (#[trigger] entry_of(files@.take(i as int), f))
                    == Some(table@[f]),
        decreases files.len() - i,
    {
        let p = files[i];
        proof {
            assert(files@.take(i + 1).drop_last() =~= files@.take(i as int));
            assert(files@.take(i + 1).last() == p);
        }
        let ghost known = table@;
        table.insert(p.1, p.0);
        proof {
            assert forall|f: u64| table@.dom().contains(f) <==> (#[trigger] entry_of(
                files@.take(i + 1),
                f,
            )) is Some by {
                assert(known.dom().contains(f) <==> entry_of(files@.take(i as int), f) is Some);
            }
            assert forall|f: u64| table@.dom().contains(f) implies (#[trigger] entry_of(
                files@.take(i + 1),
                f,
            )) == Some(table@[f]) by {
                assert(known.dom().contains(f) ==> entry_of(files@.take(i as int), f) == Some(
                    known[f],
                ));
            }
        }
        i += 1;
    }
    assert(files@.take(files@.len() as int) =~= files@);
    let mut seen: HashSet<u64> = HashSet::new();
    let mut out: Vec<DirMetaRec> = Vec::new();
    let mut j: usize = 0;
    while j < recs.len()
        invariant
            j <= recs.len(),
            forall|f: u64| table@.dom().contains(f) <==> (#[trigger] entry_of(files@, f)) is Some,
            forall|f: u64|
                table@.dom().contains(f) ==> (#[trigger] entry_of(files@, f)) == Some(table@[f]),
            forall|f: u64| seen@.contains(f) <==> #[trigger] listed(recs@.take(j as int), f),
            out@ == hits(recs@.take(j as int), files@),
        decreases recs.len() - j,
    {
        let m = recs[j];
        let ghost init = recs@.take(j as int);
        proof {
            assert(recs@.take(j + 1) =~= init.push(m));
            assert(init.push(m).drop_last() =~= init);
            assert(entry_of(files@, m.0) is Some <==> table@.dom().contains(m.0));
            assert(seen@.contains(m.0) <==> listed(init, m.0));
        }
        if !seen.contains(&m.0) {
            match table.get(&m.0) {
                Some(idx) => {
                    out.push((*idx, m.1, m.2, m.3));
                },
                None => {},
            }
        }
        let ghost before = seen@;
        seen.insert(m.0);
        proof {
            assert forall|f: u64| seen@.contains(f) <==> #[trigger] listed(
                recs@.take(j + 1),
                f,
            ) by {
                lemma_listed_push(init, m, f);
                assert(before.contains(f) <==> listed(init, f));
            }
        }
        j += 1;
    }
    assert(recs@.take(recs@.len() as int) =~= recs@);
    let mut left: Vec<(u64, u64)> = Vec::new();
    let mut k: usize = 0;
    while k < files.len()
        invariant
            k <= files.len(),
            forall|f: u64| seen@.contains(f) <==> #[trigger] listed(recs@, f),
            left@ == unlisted(files@.take(k as int), recs@),
        decreases files.len() - k,
    {
        let p = files[k];
        proof {
            assert(files@.take(k + 1).drop_last() =~= files@.take(k as int));
            assert(seen@.contains(p.1) <==> listed(recs@, p.1));
        }
        if !seen.contains(&p.1) {
            left.push(p);
        }
        k += 1;
    }
    assert(files@.take(files@.len() as int) =~= files@);
    (out, left)
}

/// Every pending file is looked at exactly one way: it is left for opening if and only if no
/// listing mentions it.
pub proof fn law_every_file_is_looked_up(
    files: Seq<(u64, u64)>,
    recs: Seq<DirMetaRec>,
    f: (u64, u64),
)
    ensures
        unlisted(files, recs).contains(f) <==> files.contains(f) && !listed(recs, f.1),
    decreases files.len(),
{
    if files.len() > 0 {
        let init = files.drop_last();
        let rest = unlisted(init, recs);
        let all = unlisted(files, recs);
        law_every_file_is_looked_up(init, recs, f);
        if all.contains(f) {
            let k = choose|k: int| 0 <= k < all.len() && #[trigger] all[k] == f;
            if k < rest.len() {
                assert(rest[k] == f);
                assert(rest.contains(f));
                let m = choose|m: int| 0 <= m < init.len() && #[trigger] init[m] == f;
                assert(files[m] == f);
            } else {
                assert(files[files.len() - 1] == f);
            }
        }
        if files.contains(f) && !listed(recs, f.1) {
            let m = choose|m: int| 0 <= m < files.len() && #[trigger] files[m] == f;
            if m < init.len() {
                assert(init[m] == f);
                assert(init.contains(f));
                let k = choose|k: int| 0 <= k < rest.len() && #[trigger] rest[k] == f;
                assert(all[k] == f);
            } else {
                assert(all[all.len() - 1] == f);
            }
        }
    }
}

/// An update that comes from a listing goes to a pending file, and carries what the listing says
/// of the file with that reference number.
pub proof fn law_hits_are_pending(recs: Seq<DirMetaRec>, files: Seq<(u64, u64)>, k: int)
    requires
        0 <= k < hits(recs, files).len(),
    ensures
        exists|j: int|
            0 <= j < recs.len() && entry_of(files, (#[trigger] recs[j]).0) == Some(
                hits(recs, files)[k].0,
            ) && hits(recs, files)[k] == (hits(recs, files)[k].0, recs[j].1, recs[j].2, recs[j].3),
    decreases recs.len(),
{
    let init = recs.drop_last();
    if k < hits(init, files).len() {
        law_hits_are_pending(init, files, k);
        let h = hits(init, files)[k];
        let j = choose|j: int|
            0 <= j < init.len() && entry_of(files, (#[trigger] init[j]).0) == Some(h.0) && h == (
                h.0,
                init[j].1,
                init[j].2,
                init[j].3,
            );
        assert(recs[j] == init[j]);
        assert(hits(recs, files)[k] == h);
    } else {
        assert(recs[recs.len() - 1] == recs.last());
    }
}

/// Opening files one by one reports them by their place among the files that were left; this
/// puts the entry numbers back.
pub open spec fn reindexed(updates: Seq<MetaUpdate>, left: Seq<(u64, u64)>) -> Seq<DirMetaRec> {
    updates.map_values(|u: MetaUpdate| (left[u.0 as int].0, u.1, u.2, u.3))
}

pub fn reindex(updates: &Vec<MetaUpdate>, left: &Vec<(u64, u64)>) -> (r: Vec<DirMetaRec>)
    requires
        forall|k: int| 0 <= k < updates@.len() ==> (#[trigger] updates@[k]).0 < left@.len(),
    ensures
        r@ == reindexed(updates@, left@),
{
    let mut out: Vec<DirMetaRec> = Vec::new();
    let mut i: usize = 0;
    while i < updates.len()
        invariant
            forall|k: int| 0 <= k < updates@.len() ==> (#[trigger] updates@[k]).0 < left@.len(),
            i <= updates.len(),
            out@ == reindexed(updates@.take(i as int), left@),
        decreases updates.len() - i,
    {
        let u = updates[i];
        out.push((left[u.0].0, u.1, u.2, u.3));
        proof {
            assert(out@ =~= reindexed(updates@.take(i + 1), left@));
        }
        i += 1;
    }
    assert(updates@.take(updates@.len() as int) =~= updates@);
    out
}

// ---- the whole pass -----------------------------------------------------------------------

/// Whether the pass may run, given the value of `FINDX2_DISABLE_BACKFILL` where it is set.
pub fn backfill_enabled(disable: &Option<String>) -> (r: bool)
    ensures
        r == !(disable matches Some(v) && (v@ == "1"@ || v@ == "true"@ || v@ == "TRUE"@)),
{
    match disable {
        Some(v) => {
            !(text::same_text(v, "1") || text::same_text(v, "true") || text::same_text(v, "TRUE"))
        },
        None => true,
    }
}

/// What a request to start the pass leads to.
#[derive(Debug, Clone, Copy, PartialEq, Eq, Structural)]
pub enum BackfillStart {
    /// The pass is switched off.
    Disabled,
    /// The index has all its metadata.
    NotNeeded,
    /// A pass is running already.
    AlreadyRunning,
    Start,
}

/// Whether a fill starts.
pub open spec fn fill_start(enabled: bool, metadata_ready: bool, running: bool) -> BackfillStart {
    match (enabled, metadata_ready, running) {
        (true, false, false) => BackfillStart::Start,
        (true, false, true) => BackfillStart::AlreadyRunning,
        (true, true, _) => BackfillStart::NotNeeded,
        (false, _, _) => BackfillStart::Disabled,
    }
}

/// A fill starts where it is wanted and needed and none runs yet, and nowhere else.
pub proof fn law_start_of_a_fill(enabled: bool, metadata_ready: bool, running: bool)
    ensures
        fill_start(enabled, metadata_ready, running) is Start <==> enabled && !metadata_ready
            && !running,
        fill_start(enabled, metadata_ready, running) is Disabled <==> !enabled,
        fill_start(enabled, metadata_ready, running) is NotNeeded <==> enabled && metadata_ready,
{
}

pub fn spawn_backfill(enabled: bool, metadata_ready: bool, running: bool) -> (r: BackfillStart)
    ensures
        r == fill_start(enabled, metadata_ready, running),
        r == (if !enabled {
            BackfillStart::Disabled
        } else if metadata_ready {
            BackfillStart::NotNeeded
        } else if running {
            BackfillStart::AlreadyRunning
        } else {
            BackfillStart::Start
        }),
{
    if !enabled {
        BackfillStart::Disabled
    } else if metadata_ready {
        BackfillStart::NotNeeded
    } else if running {
        BackfillStart::AlreadyRunning
    } else {
        BackfillStart::Start
    }
}

/// What can stop the pass; the texts are those that the status shows.
#[derive(Debug)]
pub enum BackfillProblem {
    Disabled,
    NoThread(String),
    Broken(String),
    NothingFilled,
    NotWritten(String),
}

pub enum BackfillProblemView {
    Disabled,
    NoThread(Seq<char>),
    Broken(Seq<char>),
    NothingFilled,
    NotWritten(Seq<char>),
}

impl View for BackfillProblem {
    type V = BackfillProblemView;

    open spec fn view(&self) -> BackfillProblemView {
        match *self {
            BackfillProblem::Disabled => BackfillProblemView::Disabled,
            BackfillProblem::NoThread(e) => BackfillProblemView::NoThread(e@),
            BackfillProblem::Broken(e) => BackfillProblemView::Broken(e@),
            BackfillProblem::NothingFilled => BackfillProblemView::NothingFilled,
            BackfillProblem::NotWritten(e) => BackfillProblemView::NotWritten(e@),
        }
    }
}

pub open spec fn problem_text(p: BackfillProblemView) -> Seq<char> {
    match p {
        BackfillProblemView::Disabled =>
            "元数据回填已关闭（FINDX2_DISABLE_BACKFILL）；时间与大小筛选可能不准"@,
        BackfillProblemView::NoThread(e) => "无法启动回填线程："@ + e,
        BackfillProblemView::Broken(e) => "元数据回填异常："@ + e,
        BackfillProblemView::NothingFilled =>
            "元数据回填失败（可能需要管理员权限）；时间与大小筛选可能不准"@,
        BackfillProblemView::NotWritten(e) => "元数据已补全但写入索引失败："@ + e,
    }
}

/// The text of a problem, as the status shows it.
pub fn backfill_error(p: &BackfillProblem) -> (r: String)
    ensures
        r@ == problem_text(p@),
{
    match p {
        BackfillProblem::Disabled => {
            text::copied(
                "元数据回填已关闭（FINDX2_DISABLE_BACKFILL）；时间与大小筛选可能不准",
            )
        },
        BackfillProblem::NoThread(e) => {
            let mut s = text::copied("无法启动回填线程：");
            s.push_str(e);
            s
        },
        BackfillProblem::Broken(e) => {
            let mut s = text::copied("元数据回填异常：");
            s.push_str(e);
            s
        },
        BackfillProblem::NothingFilled => {
            text::copied(
                "元数据回填失败（可能需要管理员权限）；时间与大小筛选可能不准",
            )
        },
        BackfillProblem::NotWritten(e) => {
            let mut s = text::copied("元数据已补全但写入索引失败：");
            s.push_str(e);
            s
        },
    }
}

/// How many threads work on a volume: two where seeking is slow, else all but two, at least two
/// and never more than there are.
pub open spec fn threads_for(slow_seek: bool, cores: int) -> int {
    if slow_seek {
        2
    } else if cores < 2 {
        cores
    } else if cores < 4 {
        2
    } else {
        cores - 2
    }
}

pub fn volume_threads(slow_seek: bool, cores: usize) -> (r: usize)
    ensures
        r == threads_for(slow_seek, cores as int),
{
    if slow_seek {
        2
    } else if cores < 2 {
        cores
    } else if cores < 4 {
        2
    } else {
        cores - 2
    }
}

/// The threads for a plain file tree.
pub open spec fn threads_for_tree(cores: int) -> int {
    if cores - 1 < 2 {
        2
    } else if cores - 1 > 8 {
        8
    } else {
        cores - 1
    }
}

/// One core is left free, but there are never fewer than two threads nor more than eight.
pub proof fn law_threads_of_a_tree(cores: int)
    ensures
        2 <= threads_for_tree(cores) <= 8,
        3 <= cores <= 9 ==> threads_for_tree(cores) == cores - 1,
        cores <= 3 ==> threads_for_tree(cores) == 2,
        cores >= 9 ==> threads_for_tree(cores) == 8,
{
}

/// How many threads work on a plain file tree: all but one, from two to eight.
pub fn tree_threads(cores: usize) -> (r: usize)
    ensures
        r == threads_for_tree(cores as int),
        r == (if cores < 3 {
            2
        } else if cores > 9 {
            8
        } else {
            cores - 1
        }),
{
    if cores < 3 {
        2
    } else if cores > 9 {
        8
    } else {
        cores - 1
    }
}

/// A run of the pass: the plan, the volume that comes next and the files that are done.
#[derive(Debug)]
pub struct BackfillRun {
    pub vols: Vec<VolPending>,
    pub next: usize,
    pub done: u64,
}

/// What the run does next.
#[derive(Debug, Clone, Copy, PartialEq, Eq, Structural)]
pub enum BackfillAction {
    /// Nothing was pending: delete the checkpoint, mark the index as complete and save it.
    NothingPending,
    /// Work on the volume at this place of the plan, then save a checkpoint.
    Volume(usize),
    /// Not one file could be read: report it, and leave the index as it is.
    Failed,
    /// Mark the index as complete and save it.
    Persist,
}

/// The first volume at or after `from` with pending files.
pub open spec fn next_with_files(vols: Seq<VolPendingView>, from: int) -> Option<int>
    decreases vols.len() - from,
{
    if from < 0 || from >= vols.len() {
        None
    } else if vols[from].files.len() > 0 {
        Some(from)
    } else {
        next_with_files(vols, from + 1)
    }
}

pub open spec fn run_action(
    vols: Seq<VolPendingView>,
    next: int,
    done: int,
) -> BackfillAction {
    match next_with_files(vols, 0) {
        None => BackfillAction::NothingPending,
        Some(_) => match next_with_files(vols, next) {
            Some(k) => BackfillAction::Volume(k as usize),
            None => if done == 0 {
                BackfillAction::Failed
            } else {
                BackfillAction::Persist
            },
        },
    }
}

proof fn lemma_skip(vols: Seq<VolPendingView>, from: int, i: int)
    requires
        0 <= from <= i <= vols.len(),
        forall|k: int| from <= k < i ==> (#[trigger] vols[k]).files.len() == 0,
    ensures
        next_with_files(vols, from) == next_with_files(vols, i),
    decreases i - from,
{
    if from < i {
        assert(vols[from].files.len() == 0);
        lemma_skip(vols, from + 1, i);
    }
}

fn find_with_files(vols: &Vec<VolPending>, from: usize) -> (r: Option<usize>)
    ensures
        match next_with_files(volumes(vols@), from as int) {
            Some(k) => r == Some(k as usize) && 0 <= k < vols@.len(),
            None => r is None,
        },
{
    let ghost all = volumes(vols@);
    let mut i: usize = from;
    while i < vols.len()
        invariant
            all == volumes(vols@),
            from <= i,
            i <= vols.len() || i == from,
            forall|k: int| from <= k < i ==> (#[trigger] all[k]).files.len() == 0,
        decreases vols.len() - i,
    {
        proof {
            assert(all[i as int] == vols@[i as int]@);
        }
        if vols[i].files.len() > 0 {
            proof {
                lemma_skip(all, from as int, i as int);
            }
            return Some(i);
        }
        i += 1;
    }
    proof {
        if from <= vols@.len() {
            lemma_skip(all, from as int, i as int);
        }
    }
    None
}

impl BackfillRun {
    pub fn new(vols: Vec<VolPending>) -> (r: BackfillRun)
        ensures
            r.vols == vols,
            r.next == 0,
            r.done == 0,
    {
        BackfillRun { vols, next: 0, done: 0 }
    }

    pub fn action(&self) -> (r: BackfillAction)
        ensures
            r == run_action(volumes(self.vols@), self.next as int, self.done as int),
    {
        match find_with_files(&self.vols, 0) {
            None => BackfillAction::NothingPending,
            Some(_) => match find_with_files(&self.vols, self.next) {
                Some(k) => BackfillAction::Volume(k),
                None => if self.done == 0 {
                    BackfillAction::Failed
                } else {
                    BackfillAction::Persist
                },
            },
        }
    }

    /// The directories of the volume at `at` were listed: the updates that come from them, which
    /// count as done, and the files that are left for opening one by one.
    pub fn volume_listed(&mut self, at: usize, recs: &Vec<DirMetaRec>) -> (r: (
        Vec<DirMetaRec>,
        Vec<(u64, u64)>,
    ))
        requires
            at < old(self).vols@.len(),
            old(self).done + recs@.len() <= u64::MAX,
        ensures
            r.0@ == hits(recs@, old(self).vols@[at as int].files@),
            r.1@ == unlisted(old(self).vols@[at as int].files@, recs@),
            final(self).vols == old(self).vols,
            final(self).next == old(self).next,
            final(self).done == old(self).done + r.0@.len(),
    {
        let (found, left) = match_listings(&self.vols[at].files, recs);
        proof {
            lemma_hits_bounded(recs@, self.vols@[at as int].files@);
        }
        self.done = self.done + found.len() as u64;
        (found, left)
    }

    /// The files of the volume at `at` that were left have been opened: the updates that come from
    /// that, which count as done. The volume is finished.
    pub fn volume_opened(
        &mut self,
        at: usize,
        left: &Vec<(u64, u64)>,
        updates: &Vec<MetaUpdate>,
    ) -> (r: Vec<DirMetaRec>)
        requires
            at < old(self).vols@.len(),
            old(self).done + updates@.len() <= u64::MAX,
            forall|k: int| 0 <= k < updates@.len() ==> (#[trigger] updates@[k]).0 < left@.len(),
        ensures
            r@ == reindexed(updates@, left@),
            final(self).vols == old(self).vols,
            final(self).next == at + 1,
            final(self).done == old(self).done + r@.len(),
    {
        let n: usize = self.vols.len();
        assert(at < n);
        let out = reindex(updates, left);
        self.next = at + 1;
        self.done = self.done + out.len() as u64;
        out
    }
}

proof fn lemma_hits_bounded(recs: Seq<DirMetaRec>, files: Seq<(u64, u64)>)
    ensures
        hits(recs, files).len() <= recs.len(),
    decreases recs.len(),
{
    if recs.len() > 0 {
        lemma_hits_bounded(recs.drop_last(), files);
    }
}

/// The run over an index: what is pending there, without the entries that an earlier run has
/// completed.
pub fn backfill_loop(es: &Vec<ScanEntry>, done: &HashSet<u64>) -> (r: BackfillRun)
    ensures
        exists|plan: Seq<VolPendingView>| #[trigger]
            is_plan(es@, plan) && volumes(r.vols@) == plan.map_values(
                |v: VolPendingView|
                    VolPendingView { files: not_done(v.files, done@), ..v },
            ),
        r.next == 0,
        r.done == 0,
{
    let mut vols = collect_pending(es);
    drop_done(&mut vols, done);
    BackfillRun::new(vols)
}

/// The volumes are taken in the order of the plan, none with pending files is passed over, and
/// none is taken twice.
pub proof fn law_no_volume_skipped(vols: Seq<VolPendingView>, next: int, done: int)
    requires
        0 <= next,
        vols.len() <= usize::MAX,
    ensures
        match run_action(vols, next, done) {
            BackfillAction::Volume(k) => {
                &&& next <= k < vols.len()
                &&& vols[k as int].files.len() > 0
                &&& forall|j: int| next <= j < k ==> (#[trigger] vols[j]).files.len() == 0
            },
            _ => forall|j: int| next <= j < vols.len() ==> (#[trigger] vols[j]).files.len() == 0,
        },
{
    lemma_first(vols, 0);
    lemma_first(vols, next);
}

proof fn lemma_first(vols: Seq<VolPendingView>, from: int)
    requires
        0 <= from,
    ensures
        match next_with_files(vols, from) {
            Some(k) => {
                &&& from <= k < vols.len()
                &&& vols[k].files.len() > 0
                &&& forall|j: int| from <= j < k ==> (#[trigger] vols[j]).files.len() == 0
            },
            None => forall|j: int|
                from <= j < vols.len() ==> (#[trigger] vols[j]).files.len() == 0,
        },
    decreases vols.len() - from,
{
    if from < vols.len() && vols[from].files.len() == 0 {
        lemma_first(vols, from + 1);
    }
}

/// The index is marked as complete only if nothing was pending or some file was completed: a run
/// that could read nothing leaves it to the next start.
pub proof fn law_failed_run_is_retried(vols: Seq<VolPendingView>, next: int)
    requires
        pending_count(vols) > 0,
    ensures
        run_action(vols, next, 0) != BackfillAction::Persist,
        run_action(vols, next, 0) != BackfillAction::NothingPending,
{
    lemma_first(vols, 0);
    if next_with_files(vols, 0) is None {
        lemma_no_files(vols);
    }
}

proof fn lemma_no_files(vols: Seq<VolPendingView>)
    requires
        forall|j: int| 0 <= j < vols.len() ==> (#[trigger] vols[j]).files.len() == 0,
    ensures
        pending_count(vols) == 0,
    decreases vols.len(),
{
    if vols.len() > 0 {
        let init = vols.drop_last();
        assert forall|j: int| 0 <= j < init.len() implies (#[trigger] init[j]).files.len() == 0 by {
            assert(vols[j] == init[j]);
        }
        lemma_no_files(init);
        assert(vols[vols.len() - 1].files.len() == 0);
    }
}

// ---- plain file trees ---------------------------------------------------------------------

/// What the scan of a plain file tree sees of one entry; `has_path` where its path is known.
#[derive(Debug, Clone, Copy, PartialEq, Eq, Structural)]
pub struct TreeEntry {
    pub is_dir: bool,
    pub size: u64,
    pub has_path: bool,
}

/// The entries of a tree whose size is still to be found, by their numbers: files of size 0 with a
/// path, but for those that are done.
pub open spec fn tree_pending(es: Seq<TreeEntry>, done: Set<u64>) -> Seq<u64>
    decreases es.len(),
{
    if es.len() == 0 {
        Seq::empty()
    } else {
        let rest = tree_pending(es.drop_last(), done);
        let e = es.last();
        let n = (es.len() - 1) as u64;
        if !e.is_dir && e.size == 0 && e.has_path && !done.contains(n) {
            rest.push(n)
        } else {
            rest
        }
    }
}

pub fn collect_tree_pending(es: &Vec<TreeEntry>, done: &HashSet<u64>) -> (r: Vec<u64>)
    ensures
        r@ == tree_pending(es@, done@),
{
    let mut out: Vec<u64> = Vec::new();
    let mut i: usize = 0;
    proof {
        assert(es@.take(0) =~= Seq::empty());
    }
    while i < es.len()
        invariant
            i <= es.len(),
            out@ == tree_pending(es@.take(i as int), done@),
        decreases es.len() - i,
    {
        let e = es[i];
        proof {
            assert(es@.take(i + 1).drop_last() =~= es@.take(i as int));
        }
        if !e.is_dir && e.size == 0 && e.has_path && !done.contains(&(i as u64)) {
            out.push(i as u64);
        }
        i += 1;
    }
    assert(es@.take(es@.len() as int) =~= es@);
    out
}

/// What the system says of a file; times are in seconds.
#[derive(Debug, Clone, Copy, PartialEq, Eq, Structural)]
pub struct TreeStat {
    pub is_dir: bool,
    pub size: u64,
    pub mtime: i64,
    pub ctime: i64,
}

/// A time in seconds as the overlay keeps it: times before 1970 become 0, later ones wrap.
pub open spec fn kept_secs(secs: i64) -> u32 {
    if secs < 0 {
        0
    } else {
        (secs as int % 0x1_0000_0000) as u32
    }
}

pub fn overlay_secs(secs: i64) -> (r: u32)
    ensures
        r == kept_secs(secs),
{
    if secs < 0 {
        0
    } else {
        (secs % 0x1_0000_0000) as u32
    }
}

/// What is kept of the files that were looked at: one that is gone, or has become a directory, is
/// passed over.
pub open spec fn tree_recs(pending: Seq<u64>, stats: Seq<Option<TreeStat>>) -> Seq<OverlayRec>
    decreases stats.len(),
{
    if stats.len() == 0 {
        Seq::empty()
    } else {
        let rest = tree_recs(pending, stats.drop_last());
        match stats.last() {
            Some(t) if !t.is_dir => rest.push(
                OverlayRec {
                    idx: pending[stats.len() - 1],
                    size: t.size,
                    mtime_secs: kept_secs(t.mtime),
                    ctime_secs: kept_secs(t.ctime),
                },
            ),
            _ => rest,
        }
    }
}

/// The records of a run of pending files, of which the system said this.
pub fn tree_updates(pending: &Vec<u64>, stats: &Vec<Option<TreeStat>>) -> (r: Vec<OverlayRec>)
    requires
        stats@.len() == pending@.len(),
    ensures
        r@ == tree_recs(pending@, stats@),
{
    let mut out: Vec<OverlayRec> = Vec::new();
    let mut i: usize = 0;
    proof {
        assert(stats@.take(0) =~= Seq::empty());
    }
    while i < stats.len()
        invariant
            i <= stats.len(),
            stats@.len() == pending@.len(),
            out@ == tree_recs(pending@, stats@.take(i as int)),
        decreases stats.len() - i,
    {
        proof {
            assert(stats@.take(i + 1).drop_last() =~= stats@.take(i as int));
            assert(stats@.take(i + 1).last() == stats@[i as int]);
        }
        if let Some(t) = stats[i] {
            if !t.is_dir {
                out.push(
                    OverlayRec {
                        idx: pending[i],
                        size: t.size,
                        mtime_secs: overlay_secs(t.mtime),
                        ctime_secs: overlay_secs(t.ctime),
                    },
                );
            }
        }
        i += 1;
    }
    assert(stats@.take(stats@.len() as int) =~= stats@);
    out
}

/// The system says of a file that it is one.
pub open spec fn found_file() -> spec_fn(Option<TreeStat>) -> bool {
    |s: Option<TreeStat>| s matches Some(t) && !t.is_dir
}

/// The seconds of a time: none before 1970, and the lower 32 bits of what is too large.
pub open spec fn same_moment(kept: u32, secs: i64) -> bool {
    &&& 0 <= secs <= u32::MAX ==> kept == secs
    &&& secs < 0 ==> kept == 0
    &&& secs > u32::MAX ==> (secs - kept) % 0x1_0000_0000 == 0
}

/// Each pending file that the system found gives one record, in the order of the files, with the
/// number of its entry and the size and the two times that the system said; no other file gives
/// any.
pub proof fn law_tree_records_say_what_was_found(
    pending: Seq<u64>,
    stats: Seq<Option<TreeStat>>,
    i: int,
)
    requires
        0 <= i < stats.len() <= pending.len(),
    ensures
        tree_recs(pending, stats).len() == stats.filter(found_file()).len(),
        stats[i] matches Some(t) && !t.is_dir ==> {
            let k = stats.take(i).filter(found_file()).len() as int;
            let r = tree_recs(pending, stats)[k];
            &&& k < tree_recs(pending, stats).len()
            &&& r.idx == pending[i]
            &&& r.size == stats[i]->Some_0.size
            &&& same_moment(r.mtime_secs, stats[i]->Some_0.mtime)
            &&& same_moment(r.ctime_secs, stats[i]->Some_0.ctime)
        },
    decreases stats.len(),
{
    let init = stats.drop_last();
    let rest = tree_recs(pending, init);
    crate::lists::lemma_filter_push(init, stats.last(), found_file());
    assert(init.push(stats.last()) =~= stats);
    if init.len() > 0 {
        law_tree_records_say_what_was_found(pending, init, if i < init.len() {
            i
        } else {
            0
        });
    } else {
        assert(init =~= Seq::empty());
        reveal(Seq::filter);
    }
    if i < init.len() {
        assert(init.take(i) =~= stats.take(i));
        assert(init[i] == stats[i]);
    } else {
        assert(stats.take(i) =~= init);
        if let Some(t) = stats.last() {
            lemma_kept_moment(t.mtime);
            lemma_kept_moment(t.ctime);
        }
    }
}

proof fn lemma_kept_moment(secs: i64)
    ensures
        same_moment(kept_secs(secs), secs),
{
    if secs > u32::MAX {
        let n = secs as int;
        let m = 0x1_0000_0000int;
        vstd::arithmetic::div_mod::lemma_fundamental_div_mod(n, m);
        assert(n - n % m == m * (n / m));
        vstd::arithmetic::div_mod::lemma_mod_multiples_basic(n / m, m);
        assert((n / m) * m == m * (n / m)) by (nonlinear_arith);
    }
}

/// A file of a tree is pending exactly where its size is 0, its path is known and it is not done;
/// the pending files stand in the order of their numbers, none twice.
pub proof fn law_tree_pending(es: Seq<TreeEntry>, done: Set<u64>)
    requires
        es.len() <= u64::MAX,
    ensures
        forall|n: u64| #[trigger]
            tree_pending(es, done).contains(n) <==> n < es.len() && !es[n as int].is_dir
                && es[n as int].size == 0 && es[n as int].has_path && !done.contains(n),
        forall|i: int, j: int|
            0 <= i < j < tree_pending(es, done).len() ==> #[trigger] tree_pending(es, done)[i]
                < #[trigger] tree_pending(es, done)[j],
    decreases es.len(),
{
    let all = tree_pending(es, done);
    if es.len() > 0 {
        let init = es.drop_last();
        let rest = tree_pending(init, done);
        let m = (es.len() - 1) as u64;
        law_tree_pending(init, done);
        assert forall|k: int| 0 <= k < rest.len() implies #[trigger] rest[k] < m by {
            assert(rest.contains(rest[k]));
        }
        assert forall|n: u64| #[trigger] all.contains(n) <==> n < es.len() && !es[n as int].is_dir
            && es[n as int].size == 0 && es[n as int].has_path && !done.contains(n) by {
            if rest.contains(n) {
                let k = choose|k: int| 0 <= k < rest.len() && rest[k] == n;
                assert(all[k] == n);
            }
            if all.contains(n) {
                let k = choose|k: int| 0 <= k < all.len() && all[k] == n;
                if k < rest.len() {
                    assert(rest[k] == n);
                }
            }
            if n == m && all.len() > rest.len() {
                assert(all[rest.len() as int] == n);
            }
            if n < m {
                assert(init[n as int] == es[n as int]);
            }
        }
    }
}

// ---- no file twice ------------------------------------------------------------------------

proof fn lemma_entry_of(files: Seq<(u64, u64)>, frn: u64)
    ensures
        match entry_of(files, frn) {
            Some(idx) => files.contains((idx, frn)),
            None => forall|k: int| 0 <= k < files.len() ==> (#[trigger] files[k]).1 != frn,
        },
    decreases files.len(),
{
    if files.len() > 0 {
        let init = files.drop_last();
        lemma_entry_of(init, frn);
        assert(files[files.len() - 1] == files.last());
        if files.last().1 == frn {
            assert(files.contains((files.last().0, frn)));
        } else {
            match entry_of(init, frn) {
                Some(idx) => {
                    let k = choose|k: int| 0 <= k < init.len() && init[k] == (idx, frn);
                    assert(files[k] == (idx, frn));
                },
                None => {
                    assert forall|k: int| 0 <= k < files.len() implies (#[trigger] files[k]).1
                        != frn by {
                        if k < init.len() {
                            assert(init[k] == files[k]);
                        }
                    }
                },
            }
        }
    }
}

/// The pending files have different entry numbers.
pub open spec fn distinct_entries(files: Seq<(u64, u64)>) -> bool {
    forall|i: int, j: int|
        0 <= i < files.len() && 0 <= j < files.len() && i != j ==> (#[trigger] files[i]).0 != (
        #[trigger] files[j]).0
}

/// No entry gets its size twice: one that a listing filled in is not opened by itself as well.
pub proof fn law_no_file_is_filled_twice(
    files: Seq<(u64, u64)>,
    recs: Seq<DirMetaRec>,
    k: int,
    f: (u64, u64),
)
    requires
        distinct_entries(files),
        0 <= k < hits(recs, files).len(),
        unlisted(files, recs).contains(f),
    ensures
        hits(recs, files)[k].0 != f.0,
{
    law_hits_are_pending(recs, files, k);
    let h = hits(recs, files)[k];
    let j = choose|j: int|
        0 <= j < recs.len() && entry_of(files, (#[trigger] recs[j]).0) == Some(h.0) && h == (
            h.0,
            recs[j].1,
            recs[j].2,
            recs[j].3,
        );
    lemma_entry_of(files, recs[j].0);
    law_every_file_is_looked_up(files, recs, f);
    assert(listed(recs, recs[j].0));
    let a = choose|a: int| 0 <= a < files.len() && files[a] == (h.0, recs[j].0);
    let b = choose|b: int| 0 <= b < files.len() && files[b] == f;
    assert(files[a].1 != files[b].1);
    assert(a != b);
}

/// The plan lists every entry at most once.
pub proof fn law_plan_has_distinct_entries(es: Seq<ScanEntry>, c: char)
    requires
        es.len() <= u64::MAX,
    ensures
        distinct_entries(files_of(es, c)),
{
    lemma_entries_ascend(es, c);
}

proof fn lemma_entries_ascend(es: Seq<ScanEntry>, c: char)
    requires
        es.len() <= u64::MAX,
    ensures
        forall|i: int|
            0 <= i < files_of(es, c).len() ==> (#[trigger] files_of(es, c)[i]).0 < es.len(),
        forall|i: int, j: int|
            0 <= i < j < files_of(es, c).len() ==> (#[trigger] files_of(es, c)[i]).0 < (
            #[trigger] files_of(es, c)[j]).0,
    decreases es.len(),
{
    if es.len() > 0 {
        let init = es.drop_last();
        lemma_entries_ascend(init, c);
        let before = files_of(init, c);
        let all = files_of(es, c);
        assert forall|i: int| 0 <= i < all.len() implies (#[trigger] all[i]).0 < es.len() by {
            if i < before.len() {
                assert(all[i] == before[i]);
            }
        }
        assert forall|i: int, j: int| 0 <= i < j < all.len() implies (#[trigger] all[i]).0 < (
        #[trigger] all[j]).0 by {
            assert(all[i] == before[i]);
            if j < before.len() {
                assert(all[j] == before[j]);
            }
        }
    }
}

proof fn lemma_unlisted_distinct(files: Seq<(u64, u64)>, recs: Seq<DirMetaRec>)
    requires
        distinct_entries(files),
    ensures
        distinct_entries(unlisted(files, recs)),
    decreases files.len(),
{
    if files.len() > 0 {
        let init = files.drop_last();
        let rest = unlisted(init, recs);
        let all = unlisted(files, recs);
        assert(distinct_entries(init)) by {
            assert forall|i: int, j: int|
                0 <= i < init.len() && 0 <= j < init.len() && i != j implies (#[trigger] init[i]).0
                != (#[trigger] init[j]).0 by {
                assert(files[i].0 != files[j].0);
            }
        }
        lemma_unlisted_distinct(init, recs);
        if all.len() > rest.len() {
            assert forall|i: int| 0 <= i < rest.len() implies (#[trigger] rest[i]).0
                != files.last().0 by {
                assert(rest.contains(rest[i]));
                law_every_file_is_looked_up(init, recs, rest[i]);
                let m = choose|m: int| 0 <= m < init.len() && init[m] == rest[i];
                assert(files[m].0 != files[files.len() - 1].0);
            }
            assert forall|i: int, j: int|
                0 <= i < all.len() && 0 <= j < all.len() && i != j implies (#[trigger] all[i]).0
                != (#[trigger] all[j]).0 by {
                if i < rest.len() {
                    assert(all[i] == rest[i]);
                }
                if j < rest.len() {
                    assert(all[j] == rest[j]);
                }
            }
        }
    }
}

proof fn lemma_hits_distinct(recs: Seq<DirMetaRec>, files: Seq<(u64, u64)>)
    requires
        distinct_entries(files),
    ensures
        forall|i: int, j: int|
            0 <= i < hits(recs, files).len() && 0 <= j < hits(recs, files).len() && i != j ==> (
            #[trigger] hits(recs, files)[i]).0 != (#[trigger] hits(recs, files)[j]).0,
    decreases recs.len(),
{
    if recs.len() > 0 {
        let init = recs.drop_last();
        let m = recs.last();
        let rest = hits(init, files);
        let all = hits(recs, files);
        lemma_hits_distinct(init, files);
        if all.len() > rest.len() {
            lemma_entry_of(files, m.0);
            let idx = all.last().0;
            let b = choose|b: int| 0 <= b < files.len() && files[b] == (idx, m.0);
            assert forall|i: int| 0 <= i < rest.len() implies (#[trigger] rest[i]).0 != idx by {
                law_hits_are_pending(init, files, i);
                let h = rest[i];
                let j = choose|j: int|
                    0 <= j < init.len() && entry_of(files, (#[trigger] init[j]).0) == Some(h.0) && h
                        == (h.0, init[j].1, init[j].2, init[j].3);
                lemma_entry_of(files, init[j].0);
                let a = choose|a: int| 0 <= a < files.len() && files[a] == (h.0, init[j].0);
                assert(listed(init, init[j].0));
                assert(files[a].1 != files[b].1);
                assert(files[a].0 != files[b].0);
            }
            assert forall|i: int, j: int|
                0 <= i < all.len() && 0 <= j < all.len() && i != j implies (#[trigger] all[i]).0
                != (#[trigger] all[j]).0 by {
                if i < rest.len() {
                    assert(all[i] == rest[i]);
                }
                if j < rest.len() {
                    assert(all[j] == rest[j]);
                }
            }
        }
    }
}

/// What a volume reports as done never passes what was pending there: the updates from listings and
/// the files left for opening are together no more than the pending files.
pub proof fn law_done_within_pending(files: Seq<(u64, u64)>, recs: Seq<DirMetaRec>)
    requires
        distinct_entries(files),
    ensures
        hits(recs, files).len() + unlisted(files, recs).len() <= files.len(),
{
    let h = hits(recs, files);
    let u = unlisted(files, recs);
    let hs = h.map_values(|m: DirMetaRec| m.0);
    let us = u.map_values(|f: (u64, u64)| f.0);
    let both = hs + us;
    let all = files.map_values(|f: (u64, u64)| f.0);
    lemma_hits_distinct(recs, files);
    lemma_unlisted_distinct(files, recs);
    assert forall|i: int, j: int|
        0 <= i < both.len() && 0 <= j < both.len() && i != j implies both[i] != both[j] by {
        if i < h.len() && j < h.len() {
            assert(h[i].0 != h[j].0);
        } else if i >= h.len() && j >= h.len() {
            assert(u[i - h.len()].0 != u[j - h.len()].0);
        } else if i < h.len() {
            assert(u.contains(u[j - h.len()]));
            law_no_file_is_filled_twice(files, recs, i, u[j - h.len()]);
        } else {
            assert(u.contains(u[i - h.len()]));
            law_no_file_is_filled_twice(files, recs, j, u[i - h.len()]);
        }
    }
    assert forall|x: u64| #[trigger] both.to_set().contains(x) implies all.to_set().contains(x) by {
        let i = choose|i: int| 0 <= i < both.len() && both[i] == x;
        if i < h.len() {
            law_hits_are_pending(recs, files, i);
            let j = choose|j: int|
                0 <= j < recs.len() && entry_of(files, (#[trigger] recs[j]).0) == Some(h[i].0)
                    && h[i] == (h[i].0, recs[j].1, recs[j].2, recs[j].3);
            lemma_entry_of(files, recs[j].0);
            let a = choose|a: int| 0 <= a < files.len() && files[a] == (h[i].0, recs[j].0);
            assert(all[a] == x);
        } else {
            assert(u.contains(u[i - h.len()]));
            law_every_file_is_looked_up(files, recs, u[i - h.len()]);
            let a = choose|a: int| 0 <= a < files.len() && files[a] == u[i - h.len()];
            assert(all[a] == x);
        }
    }
    both.unique_seq_to_set();
    vstd::seq_lib::seq_to_set_is_finite(all);
    vstd::set_lib::lemma_len_subset(both.to_set(), all.to_set());
    all.lemma_cardinality_of_set();
}

// ---- the last save ------------------------------------------------------------------------

/// The steps once everything is filled in.
#[derive(Debug, Clone, Copy, PartialEq, Eq, Structural)]
pub enum FinalStep {
    /// Take the sizes and times over into the index and mark it as complete.
    MarkReady,
    /// Write the index.
    Save,
    /// Remove the file that holds what was filled in so far.
    RemoveSidecar,
    Ended,
}

/// The step after one that went well or failed for the given reason, and what the status shows of a
/// failure.
pub open spec fn final_step_after(s: FinalStep, failed: Option<Seq<char>>) -> (
    FinalStep,
    Option<Seq<char>>,
) {
    match (s, failed) {
        (FinalStep::MarkReady, Some(e)) => (
            FinalStep::Ended,
            Some("元数据已补全但写入索引失败："@ + e),
        ),
        (FinalStep::MarkReady, None) => (FinalStep::Save, None),
        (FinalStep::Save, Some(_)) => (FinalStep::Ended, None),
        (FinalStep::Save, None) => (FinalStep::RemoveSidecar, None),
        _ => (FinalStep::Ended, None),
    }
}

/// The last save, step by step.
pub fn spawn_final_persist(s: FinalStep, failed: &Option<String>) -> (r: (
    FinalStep,
    Option<String>,
))
    ensures
        (r.0, text::opt_view(r.1)) == final_step_after(s, text::opt_view(*failed)),
{
    match s {
        FinalStep::MarkReady => match failed {
            Some(e) => {
                let mut t = text::copied("元数据已补全但写入索引失败：");
                t.push_str(e);
                (FinalStep::Ended, Some(t))
            },
            None => (FinalStep::Save, None),
        },
        FinalStep::Save => match failed {
            Some(_) => (FinalStep::Ended, None),
            None => (FinalStep::RemoveSidecar, None),
        },
        FinalStep::RemoveSidecar => (FinalStep::Ended, None),
        FinalStep::Ended => (FinalStep::Ended, None),
    }
}

/// What was filled in is never lost: the file that holds it goes only after the index was written
/// with it.
pub proof fn law_sidecar_goes_last(s: FinalStep, failed: Option<Seq<char>>)
    ensures
        final_step_after(s, failed).0 == FinalStep::RemoveSidecar <==> s == FinalStep::Save
            && failed is None,
        final_step_after(s, failed).0 == FinalStep::Save <==> s == FinalStep::MarkReady && failed
            is None,
{
}

// ---- what is pending ----------------------------------------------------------------------

/// An entry is pending on a volume exactly where it is a file of that volume with a number and
/// without a size; the entries stand in the order of the index.
pub proof fn law_pending_on_a_volume(es: Seq<ScanEntry>, c: char)
    requires
        es.len() <= u64::MAX,
    ensures
        forall|n: u64, frn: u64| #[trigger]
            files_of(es, c).contains((n, frn)) <==> n < es.len() && es[n as int].letter == c
                && es[n as int].frn == frn && frn != 0 && !es[n as int].is_dir && es[n as int].size
                == 0,
        forall|i: int, j: int|
            0 <= i < j < files_of(es, c).len() ==> (#[trigger] files_of(es, c)[i]).0 < (
            #[trigger] files_of(es, c)[j]).0,
    decreases es.len(),
{
    let all = files_of(es, c);
    if es.len() > 0 {
        let init = es.drop_last();
        let rest = files_of(init, c);
        let m = (es.len() - 1) as u64;
        law_pending_on_a_volume(init, c);
        assert forall|k: int| 0 <= k < rest.len() implies (#[trigger] rest[k]).0 < m by {
            assert(rest.contains((rest[k].0, rest[k].1)));
        }
        assert forall|n: u64, frn: u64| #[trigger] all.contains((n, frn)) <==> n < es.len()
            && es[n as int].letter == c && es[n as int].frn == frn && frn != 0
            && !es[n as int].is_dir && es[n as int].size == 0 by {
            let f = (n, frn);
            if rest.contains(f) {
                let k = choose|k: int| 0 <= k < rest.len() && rest[k] == f;
                assert(all[k] == f);
            }
            if all.contains(f) {
                let k = choose|k: int| 0 <= k < all.len() && all[k] == f;
                if k < rest.len() {
                    assert(rest[k] == f);
                }
            }
            if all.len() > rest.len() {
                assert(all[rest.len() as int] == (m, es.last().frn));
            }
            if n < m {
                assert(init[n as int] == es[n as int]);
            }
        }
    }
}

/// The directories of a volume are its entries that are directories and have a number.
pub proof fn law_directories_of_a_volume(es: Seq<ScanEntry>, c: char, frn: u64)
    ensures
        dirs_of(es, c).contains(frn) <==> frn != 0 && exists|i: int|
            0 <= i < es.len() && (#[trigger] es[i]).frn == frn && es[i].is_dir && es[i].letter == c,
    decreases es.len(),
{
    let all = dirs_of(es, c);
    if es.len() > 0 {
        let init = es.drop_last();
        let rest = dirs_of(init, c);
        law_directories_of_a_volume(init, c, frn);
        assert(es[es.len() - 1] == es.last());
        if rest.contains(frn) {
            let k = choose|k: int| 0 <= k < rest.len() && rest[k] == frn;
            assert(all[k] == frn);
            let i = choose|i: int|
                0 <= i < init.len() && (#[trigger] init[i]).frn == frn && init[i].is_dir
                    && init[i].letter == c;
            assert(es[i] == init[i]);
        }
        if all.contains(frn) {
            let k = choose|k: int| 0 <= k < all.len() && all[k] == frn;
            if k < rest.len() {
                assert(rest[k] == frn);
            }
        }
        if all.len() > rest.len() {
            assert(all[rest.len() as int] == es.last().frn);
        }
        if exists|i: int|
            0 <= i < es.len() && (#[trigger] es[i]).frn == frn && es[i].is_dir && es[i].letter == c {
            let i = choose|i: int|
                0 <= i < es.len() && (#[trigger] es[i]).frn == frn && es[i].is_dir && es[i].letter
                    == c;
            if i < init.len() {
                assert(init[i] == es[i]);
            }
        }
    }
}

/// A directory of the volume is listed exactly where some pending file lies in it.
pub proof fn law_listed_where_files_lie(
    dirs: Seq<u64>,
    files: Seq<(u64, u64)>,
    es: Seq<ScanEntry>,
    dir_frns: Seq<u64>,
    f: u64,
)
    ensures
        wanted_dirs(dirs, files, es, dir_frns).contains(f) <==> dirs.contains(f) && exists|k: int|
            0 <= k < files.len() && es[(#[trigger] files[k]).0 as int].dir_idx < dir_frns.len()
                && dir_frns[es[files[k].0 as int].dir_idx as int] == f,
    decreases dirs.len(),
{
    let all = wanted_dirs(dirs, files, es, dir_frns);
    if dirs.len() > 0 {
        let t = dirs.drop_last();
        let rest = wanted_dirs(t, files, es, dir_frns);
        law_listed_where_files_lie(t, files, es, dir_frns, f);
        assert(dirs[dirs.len() - 1] == dirs.last());
        if t.contains(f) {
            let k = choose|k: int| 0 <= k < t.len() && t[k] == f;
            assert(dirs[k] == f);
        }
        if dirs.contains(f) {
            let k = choose|k: int| 0 <= k < dirs.len() && dirs[k] == f;
            if k < t.len() {
                assert(t[k] == f);
            }
        }
        if rest.contains(f) {
            let k = choose|k: int| 0 <= k < rest.len() && rest[k] == f;
            assert(all[k] == f);
        }
        if all.contains(f) {
            let k = choose|k: int| 0 <= k < all.len() && all[k] == f;
            if k < rest.len() {
                assert(rest[k] == f);
            }
        }
        if all.len() > rest.len() {
            assert(all[rest.len() as int] == dirs.last());
        }
    }
}

/// A pending file whose number is its own gets the size and the two times of the first record that
/// a listing holds of it, under its own entry.
pub proof fn law_listed_files_are_filled_in(
    recs: Seq<DirMetaRec>,
    files: Seq<(u64, u64)>,
    i: int,
    j: int,
)
    requires
        0 <= i < files.len(),
        forall|k: int| 0 <= k < files.len() && k != i ==> (#[trigger] files[k]).1 != files[i].1,
        0 <= j < recs.len(),
        recs[j].0 == files[i].1,
        forall|k: int| 0 <= k < j ==> (#[trigger] recs[k]).0 != files[i].1,
    ensures
        hits(recs, files).contains((files[i].0, recs[j].1, recs[j].2, recs[j].3)),
    decreases recs.len(),
{
    let init = recs.drop_last();
    let all = hits(recs, files);
    let rest = hits(init, files);
    let want = (files[i].0, recs[j].1, recs[j].2, recs[j].3);
    if j == recs.len() - 1 {
        lemma_own_entry(files, i);
        assert(!listed(init, files[i].1)) by {
            if listed(init, files[i].1) {
                let k = choose|k: int| 0 <= k < init.len() && (#[trigger] init[k]).0 == files[i].1;
                assert(recs[k].0 == files[i].1);
            }
        }
        assert(all[rest.len() as int] == want);
    } else {
        assert(init[j] == recs[j]);
        assert forall|k: int| 0 <= k < j implies (#[trigger] init[k]).0 != files[i].1 by {
            assert(init[k] == recs[k]);
        }
        law_listed_files_are_filled_in(init, files, i, j);
        let k = choose|k: int| 0 <= k < rest.len() && rest[k] == want;
        assert(all[k] == want);
    }
}

proof fn lemma_own_entry(files: Seq<(u64, u64)>, i: int)
    requires
        0 <= i < files.len(),
        forall|k: int| 0 <= k < files.len() && k != i ==> (#[trigger] files[k]).1 != files[i].1,
    ensures
        entry_of(files, files[i].1) == Some(files[i].0),
    decreases files.len(),
{
    let t = files.drop_last();
    assert(files.last() == files[files.len() - 1]);
    if i < t.len() {
        assert(t[i] == files[i]);
        assert forall|k: int| 0 <= k < t.len() && k != i implies (#[trigger] t[k]).1 != t[i].1 by {
            assert(t[k] == files[k]);
        }
        lemma_own_entry(t, i);
    }
}

/// A file that was opened gets what was read of it, under its own entry.
pub proof fn law_opened_files_are_filled_in(
    updates: Seq<MetaUpdate>,
    left: Seq<(u64, u64)>,
    k: int,
)
    requires
        0 <= k < updates.len(),
        updates[k].0 < left.len(),
    ensures
        reindexed(updates, left).len() == updates.len(),
        reindexed(updates, left)[k].0 == left[updates[k].0 as int].0,
        reindexed(updates, left)[k].1 == updates[k].1,
        reindexed(updates, left)[k].2 == updates[k].2,
        reindexed(updates, left)[k].3 == updates[k].3,
{
}

/// Slow seeking is served by two threads; otherwise two cores are left to the search where that
/// leaves two to the work.
pub proof fn law_threads(slow_seek: bool, cores: int)
    requires
        cores >= 1,
    ensures
        slow_seek ==> threads_for(slow_seek, cores) == 2,
        !slow_seek && cores >= 4 ==> threads_for(slow_seek, cores) == cores - 2,
        !slow_seek && 2 <= cores < 4 ==> threads_for(slow_seek, cores) == 2,
        !slow_seek ==> 1 <= threads_for(slow_seek, cores) <= cores,
{
}

/// A plan names each volume that has an entry with a file number, once and in the order of the
/// letters, and no other volume.
pub proof fn law_planned_volumes(es: Seq<ScanEntry>, vols: Seq<VolPendingView>, i: int, k: int)
    requires
        is_plan(es, vols),
    ensures
        0 <= i < es.len() && es[i].frn != 0 ==> exists|j: int|
            0 <= j < vols.len() && (#[trigger] vols[j]).letter == es[i].letter,
        0 <= k < vols.len() ==> exists|j: int|
            0 <= j < es.len() && (#[trigger] es[j]).frn != 0 && es[j].letter == vols[k].letter,
        0 <= i < k < vols.len() ==> (vols[i].letter as u32) < (vols[k].letter as u32),
{
    if 0 <= i < es.len() && es[i].frn != 0 {
        assert(has_volume(es, es[i].letter));
    }
    if 0 <= k < vols.len() {
        assert(lists_volume(vols, vols[k].letter));
        assert(has_volume(es, vols[k].letter));
    }
}

} // verus!
