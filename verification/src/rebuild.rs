//! Putting a freshly scanned volume in the place of the old one: the old entries of the volume
//! leave the index, the new ones follow at its end.
use vstd::prelude::*;
use crate::text;
use crate::watch::{FrozenVolumes, VolumeState};

verus! {

/// The part of an index that a rebuild rearranges: the entries (by reference number), which part
/// of them belongs to which volume, and the directories that are left out.
#[derive(Debug)]
pub struct StoreOutline {
    pub frns: Vec<u64>,
    pub volumes: Vec<VolumeState>,
    pub excluded_dirs: Vec<String>,
}

pub struct StoreOutlineView {
    pub frns: Seq<u64>,
    pub volumes: Seq<VolumeState>,
    pub excluded_dirs: Seq<Seq<char>>,
}

impl View for StoreOutline {
    type V = StoreOutlineView;

    open spec fn view(&self) -> StoreOutlineView {
        StoreOutlineView {
            frns: self.frns@,
            volumes: self.volumes@,
            excluded_dirs: text::texts(self.excluded_dirs@),
        }
    }
}

/// The volume `i` starts before the volume `j`; of two that start together the first listed does.
pub open spec fn starts_before(vols: Seq<VolumeState>, i: int, j: int) -> bool {
    vols[i].first_entry_idx < vols[j].first_entry_idx || (vols[i].first_entry_idx
        == vols[j].first_entry_idx && i < j)
}

/// The earliest volume with the letter `c` among the first `n`.
pub open spec fn earliest(vols: Seq<VolumeState>, c: char, n: int) -> Option<int>
    decreases n,
{
    if n <= 0 {
        None
    } else {
        let rest = earliest(vols, c, n - 1);
        if crate::watch::letter_of(vols[n - 1]) == c && (rest is None || starts_before(
            vols,
            n - 1,
            rest->0,
        )) {
            Some(n - 1)
        } else {
            rest
        }
    }
}

/// The earliest of the first `n` volumes that starts after the volume `i`.
pub open spec fn successor(vols: Seq<VolumeState>, i: int, n: int) -> Option<int>
    decreases n,
{
    if n <= 0 {
        None
    } else {
        let rest = successor(vols, i, n - 1);
        if starts_before(vols, i, n - 1) && (rest is None || starts_before(
            vols,
            n - 1,
            rest->0,
        )) {
            Some(n - 1)
        } else {
            rest
        }
    }
}

/// The entries `start..end` of an index of `len` entries that belong to the volume `c`: from its
/// first entry to the first of the next volume.
pub open spec fn range_of(vols: Seq<VolumeState>, c: char, len: int) -> (int, int) {
    match earliest(vols, c, vols.len() as int) {
        None => (0, 0),
        Some(i) => {
            let end = match successor(vols, i, vols.len() as int) {
                Some(j) => vols[j].first_entry_idx as int,
                None => len,
            };
            (
                vols[i].first_entry_idx as int,
                if end < len {
                    end
                } else {
                    len
                },
            )
        },
    }
}

proof fn lemma_earliest(vols: Seq<VolumeState>, c: char, n: int)
    requires
        0 <= n <= vols.len(),
    ensures
        match earliest(vols, c, n) {
            Some(i) => 0 <= i < n && crate::watch::letter_of(vols[i]) == c,
            None => forall|k: int|
                0 <= k < n ==> crate::watch::letter_of(#[trigger] vols[k]) != c,
        },
    decreases n,
{
    if n > 0 {
        lemma_earliest(vols, c, n - 1);
    }
}

proof fn lemma_successor(vols: Seq<VolumeState>, i: int, n: int)
    requires
        0 <= i < vols.len(),
        0 <= n <= vols.len(),
    ensures
        match successor(vols, i, n) {
            Some(j) => 0 <= j < n && starts_before(vols, i, j),
            None => forall|k: int|
                #![trigger vols[k]]
                0 <= k < n ==> !starts_before(vols, i, k),
        },
    decreases n,
{
    if n > 0 {
        lemma_successor(vols, i, n - 1);
    }
}

fn find_earliest(vols: &Vec<VolumeState>, c: char) -> (r: Option<usize>)
    ensures
        match r {
            Some(i) => earliest(vols@, c, vols@.len() as int) == Some(i as int) && i < vols@.len(),
            None => earliest(vols@, c, vols@.len() as int) is None,
        },
{
    let mut found: Option<usize> = None;
    let mut k: usize = 0;
    while k < vols.len()
        invariant
            k <= vols.len(),
            match found {
                Some(i) => earliest(vols@, c, k as int) == Some(i as int) && i < k,
                None => earliest(vols@, c, k as int) is None,
            },
        decreases vols.len() - k,
    {
        if text::upper_char(vols[k].volume_letter as char) == c {
            match found {
                Some(i) => {
                    if vols[k].first_entry_idx < vols[i].first_entry_idx {
                        found = Some(k);
                    }
                },
                None => {
                    found = Some(k);
                },
            }
        }
        k += 1;
    }
    found
}

fn find_successor(vols: &Vec<VolumeState>, i: usize) -> (r: Option<usize>)
    requires
        i < vols@.len(),
    ensures
        match r {
            Some(j) => successor(vols@, i as int, vols@.len() as int) == Some(j as int) && j
                < vols@.len(),
            None => successor(vols@, i as int, vols@.len() as int) is None,
        },
{
    let first: u32 = vols[i].first_entry_idx;
    let mut found: Option<usize> = None;
    let mut k: usize = 0;
    while k < vols.len()
        invariant
            i < vols@.len(),
            first == vols@[i as int].first_entry_idx,
            k <= vols.len(),
            match found {
                Some(j) => successor(vols@, i as int, k as int) == Some(j as int) && j < k,
                None => successor(vols@, i as int, k as int) is None,
            },
        decreases vols.len() - k,
    {
        let start: u32 = vols[k].first_entry_idx;
        if first < start || (first == start && i < k) {
            match found {
                Some(j) => {
                    if start < vols[j].first_entry_idx {
                        found = Some(k);
                    }
                },
                None => {
                    found = Some(k);
                },
            }
        }
        k += 1;
    }
    found
}

/// The entries of a volume (a capital letter): a pair of its start and end.
pub fn volume_range(vols: &Vec<VolumeState>, letter: char, len: usize) -> (r: (usize, usize))
    ensures
        (r.0 as int, r.1 as int) == range_of(vols@, letter, len as int),
{
    match find_earliest(vols, letter) {
        None => (0, 0),
        Some(i) => {
            let end: usize = match find_successor(vols, i) {
                Some(j) => vols[j].first_entry_idx as usize,
                None => len,
            };
            let end: usize = if end < len {
                end
            } else {
                len
            };
            (vols[i].first_entry_idx as usize, end)
        },
    }
}

/// The entries without the range.
pub open spec fn without_range(frns: Seq<u64>, range: (int, int)) -> Seq<u64> {
    if range.0 < range.1 {
        frns.take(range.0) + frns.skip(range.1)
    } else {
        frns
    }
}

/// A volume that stays, moved up where its entries stood behind the range.
pub open spec fn moved_up(v: VolumeState, range: (int, int)) -> VolumeState {
    if range.0 < range.1 && v.first_entry_idx >= range.1 {
        VolumeState {
            first_entry_idx: (v.first_entry_idx - (range.1 - range.0)) as u32,
            ..v
        }
    } else {
        v
    }
}

/// The volumes other than `c`, moved up.
pub open spec fn other_volumes(
    vols: Seq<VolumeState>,
    c: char,
    range: (int, int),
) -> Seq<VolumeState>
    decreases vols.len(),
{
    if vols.len() == 0 {
        Seq::empty()
    } else {
        let rest = other_volumes(vols.drop_last(), c, range);
        if crate::watch::letter_of(vols.last()) == c {
            rest
        } else {
            rest.push(moved_up(vols.last(), range))
        }
    }
}

/// A new volume behind `len` older entries.
pub open spec fn moved_down(v: VolumeState, len: int) -> VolumeState {
    VolumeState { first_entry_idx: (v.first_entry_idx + len) as u32, ..v }
}

/// The index `old` with the volume `c` replaced by what `fresh` holds; the directories that are
/// left out stay those of the old index.
pub open spec fn merged(
    old: StoreOutlineView,
    fresh: StoreOutlineView,
    c: char,
) -> StoreOutlineView {
    let range = range_of(old.volumes, c, old.frns.len() as int);
    let kept = without_range(old.frns, range);
    StoreOutlineView {
        frns: kept + fresh.frns,
        volumes: other_volumes(old.volumes, c, range) + fresh.volumes.map_values(
            |v: VolumeState| moved_down(v, kept.len() as int),
        ),
        excluded_dirs: old.excluded_dirs,
    }
}

/// Every volume starts inside the index or at its end.
pub open spec fn starts_inside(s: StoreOutlineView) -> bool {
    forall|i: int| 0 <= i < s.volumes.len() ==> (#[trigger] s.volumes[i]).first_entry_idx
        <= s.frns.len()
}

fn cut_range(frns: &mut Vec<u64>, start: usize, end: usize)
    requires
        end <= old(frns)@.len(),
    ensures
        final(frns)@ == without_range(old(frns)@, (start as int, end as int)),
{
    if start < end {
        let mut tail = frns.split_off(end);
        frns.truncate(start);
        frns.append(&mut tail);
        proof {
            assert(frns@ =~= old(frns)@.take(start as int) + old(frns)@.skip(end as int));
        }
    }
}

/// Replaces a volume (a capital letter) by its fresh scan.
pub fn merge_rebuilt_volume(old: StoreOutline, fresh: StoreOutline, letter: char) -> (r:
    StoreOutline)
    requires
        starts_inside(fresh@),
        old.frns@.len() + fresh.frns@.len() <= u32::MAX,
    ensures
        r@ == merged(old@, fresh@, letter),
{
    let (start, end) = volume_range(&old.volumes, letter, old.frns.len());
    let ghost range = (start as int, end as int);
    let mut frns = old.frns;
    proof {
        if earliest(old.volumes@, letter, old.volumes@.len() as int) is Some {
            lemma_earliest(old.volumes@, letter, old.volumes@.len() as int);
        }
    }
    cut_range(&mut frns, start, end);
    let base: u32 = frns.len() as u32;
    let mut volumes: Vec<VolumeState> = Vec::new();
    let mut i: usize = 0;
    while i < old.volumes.len()
        invariant
            i <= old.volumes.len(),
            range == (start as int, end as int),
            end <= u32::MAX,
            volumes@ == other_volumes(old.volumes@.take(i as int), letter, range),
        decreases old.volumes.len() - i,
    {
        let v = old.volumes[i];
        proof {
            assert(old.volumes@.take(i + 1).drop_last() =~= old.volumes@.take(i as int));
        }
        if text::upper_char(v.volume_letter as char) != letter {
            if start < end && v.first_entry_idx as usize >= end {
                let up: u32 = (end - start) as u32;
                volumes.push(VolumeState { first_entry_idx: v.first_entry_idx - up, ..v });
            } else {
                volumes.push(v);
            }
        }
        i += 1;
    }
    assert(old.volumes@.take(old.volumes@.len() as int) =~= old.volumes@);
    let ghost others = volumes@;
    let ghost shift = |v: VolumeState| moved_down(v, base as int);
    let mut j: usize = 0;
    while j < fresh.volumes.len()
        invariant
            j <= fresh.volumes.len(),
            starts_inside(fresh@),
            base + fresh.frns@.len() <= u32::MAX,
            shift == (|v: VolumeState| moved_down(v, base as int)),
            volumes@ == others + fresh.volumes@.take(j as int).map_values(shift),
        decreases fresh.volumes.len() - j,
    {
        let v = fresh.volumes[j];
        assert(fresh@.volumes[j as int].first_entry_idx <= fresh.frns@.len());
        volumes.push(VolumeState { first_entry_idx: v.first_entry_idx + base, ..v });
        proof {
            assert(volumes@ =~= others + fresh.volumes@.take(j + 1).map_values(shift));
        }
        j += 1;
    }
    assert(fresh.volumes@.take(fresh.volumes@.len() as int) =~= fresh.volumes@);
    let mut tail = fresh.frns;
    frns.append(&mut tail);
    StoreOutline { frns, volumes, excluded_dirs: old.excluded_dirs }
}

// ---- laws ---------------------------------------------------------------------------------

proof fn lemma_others(vols: Seq<VolumeState>, c: char, range: (int, int), len: int)
    requires
        0 <= range.0,
        range.1 <= len,
        forall|i: int| 0 <= i < vols.len() ==> (#[trigger] vols[i]).first_entry_idx <= len,
        len <= u32::MAX,
        range.0 < range.1 ==> forall|i: int|
            0 <= i < vols.len() && crate::watch::letter_of(vols[i]) != c ==> (
            #[trigger] vols[i]).first_entry_idx <= range.0 || vols[i].first_entry_idx >= range.1,
    ensures
        forall|i: int|
            0 <= i < other_volumes(vols, c, range).len() ==> crate::watch::letter_of(
                #[trigger] other_volumes(vols, c, range)[i],
            ) != c && other_volumes(vols, c, range)[i].first_entry_idx <= len - (if range.0
                < range.1 {
                range.1 - range.0
            } else {
                0
            }),
    decreases vols.len(),
{
    if vols.len() > 0 {
        let init = vols.drop_last();
        assert forall|i: int| 0 <= i < init.len() implies #[trigger] init[i] == vols[i] by {}
        lemma_others(init, c, range, len);
        let v = vols[vols.len() - 1];
        assert(v == vols.last());
        if crate::watch::letter_of(v) != c {
            let cut = if range.0 < range.1 {
                range.1 - range.0
            } else {
                0
            };
            assert(v.first_entry_idx <= len);
            assert(moved_up(v, range).first_entry_idx <= len - cut);
            let rest = other_volumes(init, c, range);
            let all = other_volumes(vols, c, range);
            assert forall|i: int| 0 <= i < all.len() implies crate::watch::letter_of(
                #[trigger] all[i],
            ) != c && all[i].first_entry_idx <= len - cut by {
                if i < rest.len() {
                    assert(all[i] == rest[i]);
                }
            }
        } else {
            assert(other_volumes(vols, c, range) == other_volumes(init, c, range));
        }
    }
}

/// Between the start of a volume and the start of its successor no other volume starts.
proof fn lemma_nothing_between(vols: Seq<VolumeState>, i: int, n: int)
    requires
        0 <= i < vols.len(),
        0 <= n <= vols.len(),
    ensures
        forall|k: int|
            #![trigger vols[k]]
            0 <= k < n && starts_before(vols, i, k) ==> match successor(vols, i, n) {
                Some(j) => 0 <= j < n && vols[j].first_entry_idx <= vols[k].first_entry_idx,
                None => false,
            },
    decreases n,
{
    if n > 0 {
        lemma_nothing_between(vols, i, n - 1);
        lemma_successor(vols, i, n - 1);
    }
}

/// Rebuilding a volume again and again leaves nothing of its earlier scans behind: the index then
/// holds the entries of the other volumes and those of the last scan.
pub proof fn law_rebuild_leaves_nothing_behind(
    old: StoreOutlineView,
    first: StoreOutlineView,
    second: StoreOutlineView,
    c: char,
)
    requires
        starts_inside(old),
        old.frns.len() + first.frns.len() <= u32::MAX,
        first.volumes.len() == 1,
        crate::watch::letter_of(first.volumes[0]) == c,
        first.volumes[0].first_entry_idx == 0,
    ensures
        merged(merged(old, first, c), second, c).frns == without_range(
            old.frns,
            range_of(old.volumes, c, old.frns.len() as int),
        ) + second.frns,
        merged(old, first, c).excluded_dirs == old.excluded_dirs,
{
    let len = old.frns.len() as int;
    let range = range_of(old.volumes, c, len);
    let kept = without_range(old.frns, range);
    let others = other_volumes(old.volumes, c, range);
    let m = merged(old, first, c);
    lemma_earliest(old.volumes, c, old.volumes.len() as int);
    if earliest(old.volumes, c, old.volumes.len() as int) is Some {
        let i = earliest(old.volumes, c, old.volumes.len() as int)->0;
        lemma_successor(old.volumes, i, old.volumes.len() as int);
        lemma_nothing_between(old.volumes, i, old.volumes.len() as int);
        assert forall|k: int|
            0 <= k < old.volumes.len() && crate::watch::letter_of(old.volumes[k])
                != c implies (#[trigger] old.volumes[k]).first_entry_idx <= range.0
            || old.volumes[k].first_entry_idx >= range.1 by {
            if old.volumes[k].first_entry_idx > range.0 {
                assert(starts_before(old.volumes, i, k));
            }
        }
    }
    lemma_others(old.volumes, c, range, len);
    assert(kept.len() == len - (if range.0 < range.1 {
        range.1 - range.0
    } else {
        0
    }));
    let n = others.len() as int;
    assert(m.volumes.len() == n + 1);
    assert(m.volumes[n].first_entry_idx == kept.len());
    assert(crate::watch::letter_of(m.volumes[n]) == c);
    assert forall|k: int| 0 <= k < n implies #[trigger] m.volumes[k] == others[k] by {}
    lemma_earliest(m.volumes, c, n);
    if earliest(m.volumes, c, n) is Some {
        let k = earliest(m.volumes, c, n)->0;
        assert(crate::watch::letter_of(others[k]) != c);
    }
    assert(earliest(m.volumes, c, n + 1) == Some(n));
    lemma_successor(m.volumes, n, n + 1);
    if successor(m.volumes, n, n + 1) is Some {
        let k = successor(m.volumes, n, n + 1)->0;
        if k < n {
            assert(others[k].first_entry_idx <= kept.len());
        }
    }
    let range2 = range_of(m.volumes, c, m.frns.len() as int);
    assert(range2 == (kept.len() as int, m.frns.len() as int));
    let cut = without_range(m.frns, range2);
    assert(cut =~= kept);
}

/// The volumes are listed in the order of their entries, each letter once.
pub open spec fn in_order(vols: Seq<VolumeState>) -> bool {
    forall|i: int, j: int|
        0 <= i < j < vols.len() ==> (#[trigger] vols[i]).first_entry_idx <= (
        #[trigger] vols[j]).first_entry_idx && crate::watch::letter_of(vols[i])
            != crate::watch::letter_of(vols[j])
}

/// The entries of the volume `c`.
pub open spec fn entries_of(s: StoreOutlineView, c: char) -> Seq<u64> {
    let range = range_of(s.volumes, c, s.frns.len() as int);
    if 0 <= range.0 <= range.1 <= s.frns.len() {
        s.frns.subrange(range.0, range.1)
    } else {
        Seq::empty()
    }
}

/// In a well ordered index a volume reaches up to the next one.
proof fn lemma_range(vols: Seq<VolumeState>, i: int, len: int)
    requires
        in_order(vols),
        0 <= i < vols.len(),
        forall|k: int| 0 <= k < vols.len() ==> (#[trigger] vols[k]).first_entry_idx <= len,
    ensures
        range_of(vols, crate::watch::letter_of(vols[i]), len) == (
            vols[i].first_entry_idx as int,
            if i + 1 < vols.len() {
                vols[i + 1].first_entry_idx as int
            } else {
                len
            },
        ),
{
    let n = vols.len() as int;
    let c = crate::watch::letter_of(vols[i]);
    lemma_earliest(vols, c, n);
    let e = earliest(vols, c, n);
    assert(e == Some(i)) by {
        match e {
            Some(k) => {
                if k < i {
                    assert(vols[k].first_entry_idx <= vols[i].first_entry_idx);
                } else if i < k {
                    assert(vols[i].first_entry_idx <= vols[k].first_entry_idx);
                }
            },
            None => {},
        }
    }
    lemma_successor(vols, i, n);
    lemma_nothing_between(vols, i, n);
    match successor(vols, i, n) {
        Some(j) => {
            if j < i {
                assert(vols[j].first_entry_idx <= vols[i].first_entry_idx);
            }
            assert(i < j);
            assert(vols[i].first_entry_idx <= vols[i + 1].first_entry_idx);
            assert(starts_before(vols, i, i + 1));
            if i + 1 < j {
                assert(vols[i + 1].first_entry_idx <= vols[j].first_entry_idx);
            }
            assert(vols[j].first_entry_idx == vols[i + 1].first_entry_idx);
        },
        None => {
            if i + 1 < n {
                assert(vols[i].first_entry_idx <= vols[i + 1].first_entry_idx);
                assert(starts_before(vols, i, i + 1));
            }
        },
    }
}

/// The volumes but for the one at `p`, which is the only one with the letter `c`.
proof fn lemma_others_are(vols: Seq<VolumeState>, c: char, range: (int, int), p: int)
    requires
        0 <= p <= vols.len(),
        forall|k: int|
            0 <= k < vols.len() && k != p ==> crate::watch::letter_of(#[trigger] vols[k]) != c,
        p < vols.len() ==> crate::watch::letter_of(vols[p]) == c,
    ensures
        other_volumes(vols, c, range).len() == (if p < vols.len() {
            vols.len() - 1
        } else {
            vols.len() as int
        }),
        forall|k: int|
            0 <= k < vols.len() && k != p ==> other_volumes(vols, c, range)[if k < p {
                k
            } else {
                k - 1
            }] == moved_up(#[trigger] vols[k], range),
    decreases vols.len(),
{
    if vols.len() > 0 {
        let init = vols.drop_last();
        let n = vols.len() as int;
        assert forall|k: int| 0 <= k < init.len() && k != p implies crate::watch::letter_of(
            #[trigger] init[k],
        ) != c by {
            assert(init[k] == vols[k]);
        }
        lemma_others_are(
            init,
            c,
            range,
            if p < n {
                p
            } else {
                n - 1
            },
        );
        let rest = other_volumes(init, c, range);
        let all = other_volumes(vols, c, range);
        assert(vols[n - 1] == vols.last());
        assert forall|k: int| 0 <= k < n && k != p implies all[if k < p {
            k
        } else {
            k - 1
        }] == moved_up(#[trigger] vols[k], range) by {
            if k < n - 1 {
                assert(init[k] == vols[k]);
            }
        }
    }
}

/// Where the volume `c` stands in the list; past its end where it is not there.
spec fn home(vols: Seq<VolumeState>, c: char) -> int {
    match earliest(vols, c, vols.len() as int) {
        Some(k) => k,
        None => vols.len() as int,
    }
}

/// The index is well ordered.
pub open spec fn well_ordered(s: StoreOutlineView) -> bool {
    starts_inside(s) && in_order(s.volumes)
}

proof fn lemma_home(old: StoreOutlineView, c: char)
    requires
        well_ordered(old),
    ensures
        0 <= home(old.volumes, c) <= old.volumes.len(),
        home(old.volumes, c) < old.volumes.len() ==> crate::watch::letter_of(
            old.volumes[home(old.volumes, c)],
        ) == c,
        forall|k: int|
            0 <= k < old.volumes.len() && k != home(old.volumes, c) ==> crate::watch::letter_of(
                #[trigger] old.volumes[k],
            ) != c,
        ({
            let p = home(old.volumes, c);
            let n = old.volumes.len() as int;
            let len = old.frns.len() as int;
            let range = range_of(old.volumes, c, len);
            &&& 0 <= range.0 <= range.1 <= len
            &&& p == n ==> range == (0int, 0int)
            &&& p < n ==> range.0 == old.volumes[p].first_entry_idx
            &&& p + 1 < n ==> range.1 == old.volumes[p + 1].first_entry_idx
            &&& p + 1 == n ==> range.1 == len
        }),
{
    let vols = old.volumes;
    let n = vols.len() as int;
    let len = old.frns.len() as int;
    lemma_earliest(vols, c, n);
    let p = home(vols, c);
    assert forall|k: int| 0 <= k < n && k != p implies crate::watch::letter_of(#[trigger] vols[k])
        != c by {
        if p < n && k < p {
            assert(crate::watch::letter_of(vols[k]) != crate::watch::letter_of(vols[p]));
        } else if p < n {
            assert(crate::watch::letter_of(vols[p]) != crate::watch::letter_of(vols[k]));
        }
    }
    if p < n {
        lemma_range(vols, p, len);
        if p + 1 < n {
            assert(vols[p].first_entry_idx <= vols[p + 1].first_entry_idx);
        }
    }
}

/// What is before the range stays, what is behind it moves up by its length.
proof fn lemma_moved(old: StoreOutlineView, c: char, k: int)
    requires
        well_ordered(old),
        0 <= k < old.volumes.len(),
        k != home(old.volumes, c),
    ensures
        ({
            let p = home(old.volumes, c);
            let range = range_of(old.volumes, c, old.frns.len() as int);
            &&& moved_up(old.volumes[k], range).first_entry_idx == (if k < p {
                old.volumes[k].first_entry_idx as int
            } else {
                old.volumes[k].first_entry_idx - (range.1 - range.0)
            })
            &&& moved_up(old.volumes[k], range).volume_letter == old.volumes[k].volume_letter
            &&& k < p && p < old.volumes.len() ==> old.volumes[k].first_entry_idx <= range.0
            &&& p < k ==> range.1 <= old.volumes[k].first_entry_idx
        }),
{
    lemma_home(old, c);
    let vols = old.volumes;
    let p = home(vols, c);
    if k < p && p < vols.len() {
        assert(vols[k].first_entry_idx <= vols[p].first_entry_idx);
    }
    if p < k && p + 1 < k {
        assert(vols[p + 1].first_entry_idx <= vols[k].first_entry_idx);
    }
}

/// The volumes of the merged index: the others in their order, then the rebuilt one.
proof fn lemma_merged_volumes(old: StoreOutlineView, fresh: StoreOutlineView, c: char)
    requires
        well_ordered(old),
        old.frns.len() + fresh.frns.len() <= u32::MAX,
        fresh.volumes.len() == 1,
        crate::watch::letter_of(fresh.volumes[0]) == c,
        fresh.volumes[0].first_entry_idx == 0,
    ensures
        ({
            let p = home(old.volumes, c);
            let n = old.volumes.len() as int;
            let range = range_of(old.volumes, c, old.frns.len() as int);
            let m = merged(old, fresh, c);
            let q = m.volumes.len() - 1;
            &&& q == (if p < n {
                n - 1
            } else {
                n
            })
            &&& m.volumes[q].first_entry_idx == old.frns.len() - (range.1 - range.0)
            &&& crate::watch::letter_of(m.volumes[q]) == c
            &&& forall|i: int|
                0 <= i < q ==> #[trigger] m.volumes[i] == moved_up(
                    old.volumes[if i < p {
                        i
                    } else {
                        i + 1
                    }],
                    range,
                )
        }),
{
    lemma_home(old, c);
    let p = home(old.volumes, c);
    let n = old.volumes.len() as int;
    let range = range_of(old.volumes, c, old.frns.len() as int);
    lemma_others_are(old.volumes, c, range, p);
    let others = other_volumes(old.volumes, c, range);
    let m = merged(old, fresh, c);
    let kept = without_range(old.frns, range);
    assert(kept.len() == old.frns.len() - (range.1 - range.0));
    assert(m.volumes =~= others.push(moved_down(fresh.volumes[0], kept.len() as int)));
    let q = others.len() as int;
    assert forall|i: int| 0 <= i < q implies #[trigger] m.volumes[i] == moved_up(
        old.volumes[if i < p {
            i
        } else {
            i + 1
        }],
        range,
    ) by {
        let k = if i < p {
            i
        } else {
            i + 1
        };
        assert(0 <= k < n && k != p);
        assert(others[i] == moved_up(old.volumes[k], range));
    }
}

/// A rebuild keeps the index well ordered.
pub proof fn law_rebuild_keeps_order(old: StoreOutlineView, fresh: StoreOutlineView, c: char)
    requires
        well_ordered(old),
        old.frns.len() + fresh.frns.len() <= u32::MAX,
        fresh.volumes.len() == 1,
        crate::watch::letter_of(fresh.volumes[0]) == c,
        fresh.volumes[0].first_entry_idx == 0,
    ensures
        well_ordered(merged(old, fresh, c)),
{
    lemma_home(old, c);
    lemma_merged_volumes(old, fresh, c);
    let vols = old.volumes;
    let p = home(vols, c);
    let range = range_of(vols, c, old.frns.len() as int);
    let m = merged(old, fresh, c);
    let q = m.volumes.len() - 1;
    assert forall|i: int, j: int| 0 <= i < j < m.volumes.len() implies (
    #[trigger] m.volumes[i]).first_entry_idx <= (#[trigger] m.volumes[j]).first_entry_idx
        && crate::watch::letter_of(m.volumes[i]) != crate::watch::letter_of(m.volumes[j]) by {
        let a = if i < p {
            i
        } else {
            i + 1
        };
        lemma_moved(old, c, a);
        assert(vols[a].first_entry_idx <= old.frns.len());
        assert(m.volumes[i] == moved_up(vols[a], range));
        if j < q {
            let b = if j < p {
                j
            } else {
                j + 1
            };
            lemma_moved(old, c, b);
            assert(vols[a].first_entry_idx <= vols[b].first_entry_idx);
            assert(m.volumes[j] == moved_up(vols[b], range));
        }
    }
    assert forall|k: int| 0 <= k < m.volumes.len() implies (
    #[trigger] m.volumes[k]).first_entry_idx <= m.frns.len() by {
        if k < q {
            assert(m.volumes[k].first_entry_idx <= m.volumes[q].first_entry_idx);
        }
    }
}

/// Rebuilding one volume leaves the others alone: each of them still has exactly its entries, and
/// the rebuilt one has those of the scan.
pub proof fn law_other_volumes_stay(
    old: StoreOutlineView,
    fresh: StoreOutlineView,
    c: char,
    x: int,
)
    requires
        well_ordered(old),
        old.frns.len() + fresh.frns.len() <= u32::MAX,
        fresh.volumes.len() == 1,
        crate::watch::letter_of(fresh.volumes[0]) == c,
        fresh.volumes[0].first_entry_idx == 0,
        0 <= x < old.volumes.len(),
        crate::watch::letter_of(old.volumes[x]) != c,
    ensures
        entries_of(merged(old, fresh, c), crate::watch::letter_of(old.volumes[x])) == entries_of(
            old,
            crate::watch::letter_of(old.volumes[x]),
        ),
        entries_of(merged(old, fresh, c), c) == fresh.frns,
{
    lemma_home(old, c);
    lemma_merged_volumes(old, fresh, c);
    law_rebuild_keeps_order(old, fresh, c);
    let vols = old.volumes;
    let n = vols.len() as int;
    let len = old.frns.len() as int;
    let p = home(vols, c);
    let range = range_of(vols, c, len);
    let kept = without_range(old.frns, range);
    let w = range.1 - range.0;
    let m = merged(old, fresh, c);
    let q = m.volumes.len() - 1;
    assert(kept.len() == len - w);
    lemma_range(m.volumes, q, m.frns.len() as int);
    assert(entries_of(m, c) =~= fresh.frns);
    let at = if x < p {
        x
    } else {
        x - 1
    };
    lemma_moved(old, c, x);
    assert(m.volumes[at] == moved_up(vols[x], range));
    lemma_range(vols, x, len);
    lemma_range(m.volumes, at, m.frns.len() as int);
    if x + 1 < n {
        assert(vols[x].first_entry_idx <= vols[x + 1].first_entry_idx);
        if x + 1 != p {
            lemma_moved(old, c, x + 1);
            assert(m.volumes[at + 1] == moved_up(vols[x + 1], range));
        } else if p + 1 < n {
            lemma_moved(old, c, p + 1);
            assert(m.volumes[at + 1] == moved_up(vols[p + 1], range));
        }
    }
    let d = crate::watch::letter_of(vols[x]);
    let r0 = range_of(vols, d, len);
    let r1 = range_of(m.volumes, d, m.frns.len() as int);
    let shift = if x < p {
        0
    } else {
        w
    };
    assert(r1.0 == r0.0 - shift);
    assert(r1.1 == r0.1 - shift);
    assert(vols[x].first_entry_idx <= len);
    assert(entries_of(m, d) =~= entries_of(old, d));
}

// ---- the steps of a rebuild ---------------------------------------------------------------

/// The steps, while the old index goes on answering and the volume's own changes wait.
#[derive(Debug, Clone, Copy, PartialEq, Eq, Structural)]
pub enum RebuildStep {
    Scan,
    ProbeJournal,
    Build,
    /// Put the new entries in the place of the old ones, as `swapped` says.
    Merge,
    /// Put the new index in place.
    Swap,
    Persist,
    /// Rebuild the search tables.
    RebuildTables,
    /// Drop the sizes and times that were read for the old entries.
    DropOverlay,
    /// Read sizes and times anew.
    Backfill,
    Done,
}

pub open spec fn step_error(letter: char, step: RebuildStep, e: Seq<char>) -> Seq<char> {
    let head = "卷 "@ + seq![text::upper(letter)];
    match step {
        RebuildStep::Scan => head + " MFT 重枚举失败: "@ + e,
        RebuildStep::ProbeJournal => head + " journal 探测失败: "@ + e,
        RebuildStep::Build => head + " 索引构建失败: "@ + e,
        RebuildStep::Merge => head + " 索引合并失败: "@ + e,
        _ => e,
    }
}

pub open spec fn step_after(step: RebuildStep) -> RebuildStep {
    match step {
        RebuildStep::Scan => RebuildStep::ProbeJournal,
        RebuildStep::ProbeJournal => RebuildStep::Build,
        RebuildStep::Build => RebuildStep::Merge,
        RebuildStep::Merge => RebuildStep::Swap,
        RebuildStep::Swap => RebuildStep::Persist,
        RebuildStep::Persist => RebuildStep::RebuildTables,
        RebuildStep::RebuildTables => RebuildStep::DropOverlay,
        RebuildStep::DropOverlay => RebuildStep::Backfill,
        RebuildStep::Backfill => RebuildStep::Done,
        RebuildStep::Done => RebuildStep::Done,
    }
}

/// A rebuild under way: the volume's letter in upper case, the place in the journal where its
/// changes were stopped, and the step.
#[derive(Debug, Clone, Copy, PartialEq, Eq, Structural)]
pub struct RebuildRun {
    pub letter: char,
    pub frozen: u64,
    pub step: RebuildStep,
}

/// Begins the rebuild of a volume. Its changes are dropped from now on, so the place in the journal
/// up to which they were applied is noted first thing.
pub fn rebuild_volume(frozen: &mut FrozenVolumes, vols: &Vec<VolumeState>, letter: char) -> (r:
    RebuildRun)
    ensures
        final(frozen)@ == old(frozen)@.insert(text::upper(letter) as u32),
        r == (RebuildRun {
            letter: text::upper(letter),
            frozen: crate::watch::frozen_of(vols@, text::upper(letter)),
            step: RebuildStep::Scan,
        }),
{
    frozen.freeze_volume(letter, true);
    let letter = text::upper_char(letter);
    RebuildRun {
        letter,
        frozen: crate::watch::frozen_cursor(vols, letter),
        step: RebuildStep::Scan,
    }
}

/// The index that takes the place of `old`: with the entries of `fresh` for the volume `c`, whose
/// journal is read again from `frozen` on.
pub open spec fn swapped(
    old: StoreOutlineView,
    fresh: StoreOutlineView,
    c: char,
    frozen: u64,
) -> StoreOutlineView {
    let m = merged(old, fresh, c);
    StoreOutlineView { volumes: crate::watch::rewound(m.volumes, c, frozen), ..m }
}

impl RebuildRun {
    /// The index that is put in place.
    pub fn swapped_index(&self, old: StoreOutline, fresh: StoreOutline) -> (r: StoreOutline)
        requires
            starts_inside(fresh@),
            old.frns@.len() + fresh.frns@.len() <= u32::MAX,
        ensures
            r@ == swapped(old@, fresh@, self.letter, self.frozen),
    {
        let mut m = merge_rebuilt_volume(old, fresh, self.letter);
        crate::watch::rewind(&mut m.volumes, self.letter, self.frozen);
        m
    }

    /// The step is over: the one that follows, or why the rebuild failed. Either way the volume's
    /// changes go on once there is no step left.
    pub fn on_step(&mut self, frozen: &mut FrozenVolumes, error: &Option<String>) -> (r: Result<
        RebuildStep,
        String,
    >)
        ensures
            final(self).letter == old(self).letter,
            final(self).frozen == old(self).frozen,
            match *error {
                None => r == Ok::<RebuildStep, String>(step_after(old(self).step))
                    && final(self).step == step_after(old(self).step),
                Some(e) => r matches Err(m) && m@ == step_error(
                    old(self).letter,
                    old(self).step,
                    e@,
                ) && final(self).step == RebuildStep::Done,
            },
            final(frozen)@ == (if final(self).step == RebuildStep::Done {
                old(frozen)@.remove(text::upper(old(self).letter) as u32)
            } else {
                old(frozen)@
            }),
    {
        let step = self.step;
        match error {
            None => {
                self.step = match step {
                    RebuildStep::Scan => RebuildStep::ProbeJournal,
                    RebuildStep::ProbeJournal => RebuildStep::Build,
                    RebuildStep::Build => RebuildStep::Merge,
                    RebuildStep::Merge => RebuildStep::Swap,
                    RebuildStep::Swap => RebuildStep::Persist,
                    RebuildStep::Persist => RebuildStep::RebuildTables,
                    RebuildStep::RebuildTables => RebuildStep::DropOverlay,
                    RebuildStep::DropOverlay => RebuildStep::Backfill,
                    RebuildStep::Backfill => RebuildStep::Done,
                    RebuildStep::Done => RebuildStep::Done,
                };
                if self.step == RebuildStep::Done {
                    frozen.freeze_volume(self.letter, false);
                }
                Ok(self.step)
            },
            Some(e) => {
                self.step = RebuildStep::Done;
                frozen.freeze_volume(self.letter, false);
                let mut s = text::copied("卷 ");
                s.push(text::upper_char(self.letter));
                assert(s@ =~= "卷 "@ + seq![text::upper(self.letter)]);
                let head = match step {
                    RebuildStep::Scan => " MFT 重枚举失败: ",
                    RebuildStep::ProbeJournal => " journal 探测失败: ",
                    RebuildStep::Build => " 索引构建失败: ",
                    RebuildStep::Merge => " 索引合并失败: ",
                    _ => {
                        return Err(text::copied(e));
                    },
                };
                s.push_str(head);
                s.push_str(e);
                Err(s)
            },
        }
    }
}

/// How many steps are left.
pub open spec fn steps_left(step: RebuildStep) -> int {
    match step {
        RebuildStep::Scan => 9,
        RebuildStep::ProbeJournal => 8,
        RebuildStep::Build => 7,
        RebuildStep::Merge => 6,
        RebuildStep::Swap => 5,
        RebuildStep::Persist => 4,
        RebuildStep::RebuildTables => 3,
        RebuildStep::DropOverlay => 2,
        RebuildStep::Backfill => 1,
        RebuildStep::Done => 0,
    }
}

/// A rebuild ends, the index is written only after the new one is in place, and sizes are read anew
/// only after those of the old entries are gone.
pub proof fn law_rebuild_ends(step: RebuildStep)
    ensures
        step != RebuildStep::Done ==> steps_left(step_after(step)) == steps_left(step) - 1,
        step_after(step) == RebuildStep::Persist <==> step == RebuildStep::Swap,
        step_after(step) == RebuildStep::Backfill <==> step == RebuildStep::DropOverlay,
{
}

proof fn lemma_no_such_volume(vols: Seq<VolumeState>, c: char, range: (int, int))
    ensures
        forall|i: int|
            0 <= i < other_volumes(vols, c, range).len() ==> crate::watch::letter_of(
                #[trigger] other_volumes(vols, c, range)[i],
            ) != c,
    decreases vols.len(),
{
    if vols.len() > 0 {
        let init = vols.drop_last();
        lemma_no_such_volume(init, c, range);
        let rest = other_volumes(init, c, range);
        let all = other_volumes(vols, c, range);
        assert forall|i: int| 0 <= i < all.len() implies crate::watch::letter_of(#[trigger] all[i])
            != c by {
            if i < rest.len() {
                assert(all[i] == rest[i]);
            }
        }
    }
}

/// No change is lost in a rebuild: the rebuilt volume is read from the place in the journal at
/// which its changes were stopped, not from where the journal had come to by then.
pub proof fn law_rebuild_replays(
    before: Seq<VolumeState>,
    old: StoreOutlineView,
    fresh: StoreOutlineView,
    c: char,
)
    requires
        fresh.volumes.len() == 1,
        crate::watch::letter_of(fresh.volumes[0]) == c,
    ensures
        crate::watch::resume_of(
            swapped(old, fresh, c, crate::watch::frozen_of(before, c)).volumes,
            c,
        ) == Some((fresh.volumes[0].usn_journal_id, crate::watch::frozen_of(before, c))),
{
    let frozen = crate::watch::frozen_of(before, c);
    let range = range_of(old.volumes, c, old.frns.len() as int);
    let others = other_volumes(old.volumes, c, range);
    let m = merged(old, fresh, c).volumes;
    lemma_no_such_volume(old.volumes, c, range);
    assert(m.drop_last() =~= others);
    assert(m.last().usn_journal_id == fresh.volumes[0].usn_journal_id);
    crate::watch::lemma_place(others, c);
    if crate::watch::place_of(others, c) is Some {
        let i = crate::watch::place_of(others, c)->0;
        assert(crate::watch::letter_of(others[i]) != c);
    }
    let after = crate::watch::rewound(m, c, frozen);
    assert(after.drop_last() =~= others);
    assert(after.last().last_usn == frozen);
}

// ---- what becomes of the volumes ----------------------------------------------------------

/// The entries of a volume reach from its first one up to the first of the next volume, those of
/// the last volume up to the end.
pub proof fn law_entries_of_a_volume(s: StoreOutlineView, i: int)
    requires
        well_ordered(s),
        0 <= i < s.volumes.len(),
    ensures
        ({
            let first = s.volumes[i].first_entry_idx as int;
            let end = if i + 1 < s.volumes.len() {
                s.volumes[i + 1].first_entry_idx as int
            } else {
                s.frns.len() as int
            };
            &&& first <= end <= s.frns.len()
            &&& entries_of(s, crate::watch::letter_of(s.volumes[i])) == s.frns.subrange(first, end)
        }),
{
    lemma_range(s.volumes, i, s.frns.len() as int);
    if i + 1 < s.volumes.len() {
        assert(s.volumes[i].first_entry_idx <= s.volumes[i + 1].first_entry_idx);
    }
}

/// A volume other than the rebuilt one keeps its letter, journal and position; the rebuilt one has
/// the letter, journal and position of the scan.
pub proof fn law_volumes_keep_their_journals(
    old: StoreOutlineView,
    fresh: StoreOutlineView,
    c: char,
    v: VolumeState,
)
    ensures
        old.volumes.contains(v) && crate::watch::letter_of(v) != c ==> exists|k: int|
            0 <= k < merged(old, fresh, c).volumes.len() && same_journal(
                #[trigger] merged(old, fresh, c).volumes[k],
                v,
            ),
        fresh.volumes.contains(v) ==> exists|k: int|
            0 <= k < merged(old, fresh, c).volumes.len() && same_journal(
                #[trigger] merged(old, fresh, c).volumes[k],
                v,
            ),
        merged(old, fresh, c).excluded_dirs == old.excluded_dirs,
{
    let range = range_of(old.volumes, c, old.frns.len() as int);
    let others = other_volumes(old.volumes, c, range);
    let all = merged(old, fresh, c).volumes;
    if old.volumes.contains(v) && crate::watch::letter_of(v) != c {
        let i = choose|i: int| 0 <= i < old.volumes.len() && old.volumes[i] == v;
        lemma_others_keep(old.volumes, c, range, i);
        let k = choose|k: int| 0 <= k < others.len() && same_journal(#[trigger] others[k], v);
        assert(same_journal(all[k], v));
    }
    if fresh.volumes.contains(v) {
        let i = choose|i: int| 0 <= i < fresh.volumes.len() && fresh.volumes[i] == v;
        assert(same_journal(all[others.len() + i], v));
    }
}

/// The two are the same volume, read up to the same position of the same journal.
pub open spec fn same_journal(a: VolumeState, b: VolumeState) -> bool {
    &&& a.volume_letter == b.volume_letter
    &&& a.usn_journal_id == b.usn_journal_id
    &&& a.last_usn == b.last_usn
}

proof fn lemma_others_keep(vols: Seq<VolumeState>, c: char, range: (int, int), i: int)
    requires
        0 <= i < vols.len(),
        crate::watch::letter_of(vols[i]) != c,
    ensures
        exists|k: int|
            0 <= k < other_volumes(vols, c, range).len() && same_journal(
                #[trigger] other_volumes(vols, c, range)[k],
                vols[i],
            ),
    decreases vols.len(),
{
    let t = vols.drop_last();
    let all = other_volumes(vols, c, range);
    let rest = other_volumes(t, c, range);
    if i < t.len() {
        assert(t[i] == vols[i]);
        lemma_others_keep(t, c, range, i);
        let k = choose|k: int| 0 <= k < rest.len() && same_journal(#[trigger] rest[k], t[i]);
        assert(same_journal(all[k], vols[i]));
    } else {
        assert(same_journal(all[rest.len() as int], vols[i]));
    }
}

/// A failed step is reported with the volume's capital letter and the reason; of steps that have no
/// words of their own, the reason alone.
pub proof fn law_failed_steps(letter: char, step: RebuildStep, e: Seq<char>)
    ensures
        ({
            let head = "卷 "@ + seq![text::upper(letter)];
            &&& step is Scan ==> step_error(letter, step, e) == head + " MFT 重枚举失败: "@ + e
            &&& step is ProbeJournal ==> step_error(letter, step, e) == head + " journal 探测失败: "@
                + e
            &&& step is Build ==> step_error(letter, step, e) == head + " 索引构建失败: "@ + e
            &&& step is Merge ==> step_error(letter, step, e) == head + " 索引合并失败: "@ + e
            &&& !(step is Scan || step is ProbeJournal || step is Build || step is Merge)
                ==> step_error(letter, step, e) == e
        }),
{
}

} // verus!
