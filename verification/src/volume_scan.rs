//! The scan of one volume: what it asks the system for next, and what it makes of the answers.
use vstd::prelude::*;
use crate::model::{Error, ErrorView, RawEntry, RawEntryView};
use crate::mft::{self, EnumPass, EnumPassView, MetaUpdate, SubtreeItem, WalkedItem};
use crate::nt_dir_query::DirMetaRec;
use crate::text;

verus! {

// ---- one pass over the file table ---------------------------------------------------------

/// An answer of the system to a request for the next batch of the file table.
#[derive(Debug)]
pub enum EnumAnswer {
    Batch(Vec<u8>),
    /// There is nothing behind the last batch.
    EndOfTable,
    Failed(String),
}

pub enum EnumAnswerView {
    Batch(Seq<u8>),
    EndOfTable,
    Failed(Seq<char>),
}

impl View for EnumAnswer {
    type V = EnumAnswerView;

    open spec fn view(&self) -> EnumAnswerView {
        match *self {
            EnumAnswer::Batch(b) => EnumAnswerView::Batch(b@),
            EnumAnswer::EndOfTable => EnumAnswerView::EndOfTable,
            EnumAnswer::Failed(e) => EnumAnswerView::Failed(e@),
        }
    }
}

pub open spec fn answers_of(v: Seq<EnumAnswer>) -> Seq<EnumAnswerView> {
    v.map_values(|a: EnumAnswer| a@)
}

/// A pass after one answer.
pub open spec fn pass_after_answer(p: EnumPassView, a: EnumAnswerView) -> Result<
    EnumPassView,
    ErrorView,
> {
    match a {
        EnumAnswerView::Batch(b) => Ok(mft::pass_after(p, b)),
        EnumAnswerView::EndOfTable => Ok(EnumPassView { done: true, ..p }),
        EnumAnswerView::Failed(e) => Err(
            ErrorView::Platform("DeviceIoControl(FSCTL_ENUM_USN_DATA): "@ + e),
        ),
    }
}

/// A pass over a run of answers: it stops at the first that ends it or fails, and nothing behind
/// that counts.
pub open spec fn pass_over(p: EnumPassView, answers: Seq<EnumAnswerView>) -> Result<
    EnumPassView,
    ErrorView,
>
    decreases answers.len(),
{
    if p.done || answers.len() == 0 {
        Ok(p)
    } else {
        match pass_after_answer(p, answers[0]) {
            Ok(q) => pass_over(q, answers.drop_first()),
            Err(e) => Err(e),
        }
    }
}

/// A pass that has read nothing.
pub open spec fn empty_pass() -> EnumPassView {
    EnumPassView {
        files: Seq::empty(),
        dirs: Seq::empty(),
        had_batch: false,
        next_start: 0,
        done: false,
    }
}

pub open spec fn pass_view(r: Result<EnumPass, Error>) -> Result<EnumPassView, ErrorView> {
    match r {
        Ok(p) => Ok(p@),
        Err(e) => Err(e@),
    }
}

/// Takes one answer into a pass and says how many entries it brought.
pub fn on_answer(p: &mut EnumPass, answer: &EnumAnswer) -> (r: Result<u64, Error>)
    ensures
        match r {
            Ok(n) => {
                &&& pass_after_answer(old(p)@, answer@) == Ok::<EnumPassView, ErrorView>(final(p)@)
                &&& n == final(p)@.files.len() + final(p)@.dirs.len() - old(p)@.files.len()
                    - old(p)@.dirs.len()
            },
            Err(e) => {
                &&& pass_after_answer(old(p)@, answer@) == Err::<EnumPassView, ErrorView>(e@)
                &&& *final(p) == *old(p)
            },
        },
{
    match answer {
        EnumAnswer::Batch(b) => {
            proof {
                mft::law_kinds_split(mft::enumerated(crate::usn::record_slices(b@, 8)));
            }
            Ok(p.take_batch(b))
        },
        EnumAnswer::EndOfTable => {
            p.done = true;
            Ok(0)
        },
        EnumAnswer::Failed(e) => {
            let mut t = text::copied("DeviceIoControl(FSCTL_ENUM_USN_DATA): ");
            t.push_str(e);
            Err(Error::Platform(t))
        },
    }
}

/// The pass over the whole file table that the system's answers make up.
pub fn enum_usn_data_loop(answers: &Vec<EnumAnswer>) -> (r: Result<EnumPass, Error>)
    ensures
        pass_view(r) == pass_over(empty_pass(), answers_of(answers@)),
{
    let ghost all = answers_of(answers@);
    let mut p = EnumPass::new();
    let mut i: usize = 0;
    proof {
        assert(all.skip(0) =~= all);
    }
    while i < answers.len() && !p.done
        invariant
            i <= answers.len(),
            all == answers_of(answers@),
            pass_over(p@, all.skip(i as int)) == pass_over(empty_pass(), all),
        decreases answers.len() - i,
    {
        let ghost rest = all.skip(i as int);
        proof {
            assert(rest[0] == answers@[i as int]@);
            assert(rest.drop_first() =~= all.skip(i + 1));
        }
        match on_answer(&mut p, &answers[i]) {
            Ok(_) => {},
            Err(e) => {
                return Err(e);
            },
        }
        i += 1;
    }
    Ok(p)
}

// ---- the scan -----------------------------------------------------------------------------

/// What a scan wants next.
#[derive(Debug)]
pub enum ScanNext {
    /// The table gave nothing: read it again with the newer form of the request.
    SecondPass,
    /// Neither pass gave anything: walk over the directories instead.
    Walk,
    /// Read the listings of these directories.
    List(Vec<(u64, Option<[u8; 16]>)>),
    /// The files at these places have no size and times yet: open them one by one.
    Open(Vec<usize>),
    /// Walk the subtrees of these directories, whose items the table may lack.
    Subtrees(Vec<(u64, Option<[u8; 16]>)>),
    Done,
}

/// A scan under way.
#[derive(Debug)]
pub struct VolumeScan {
    pub files: Vec<RawEntry>,
    pub dirs: Vec<RawEntry>,
    /// Leave sizes to be filled in later.
    pub fast: bool,
    /// Walk the subtrees of reparse directories as well.
    pub subtrees: bool,
}

pub struct VolumeScanView {
    pub files: Seq<RawEntryView>,
    pub dirs: Seq<RawEntryView>,
    pub fast: bool,
    pub subtrees: bool,
}

impl View for VolumeScan {
    type V = VolumeScanView;

    open spec fn view(&self) -> VolumeScanView {
        VolumeScanView {
            files: crate::model::entries(self.files@),
            dirs: crate::model::entries(self.dirs@),
            fast: self.fast,
            subtrees: self.subtrees,
        }
    }
}

/// The last thing a scan wants.
pub open spec fn wants_the_end(s: VolumeScanView, next: ScanNext) -> bool {
    if s.subtrees {
        next matches ScanNext::Subtrees(d) && mft::id_pairs(d@) == mft::reparse_of(s.dirs)
    } else {
        next is Done
    }
}

/// What a scan wants that holds the given entries of the file table.
pub open spec fn wants_after_tables(s: VolumeScanView, next: ScanNext) -> bool {
    if s.files.len() == 0 && s.dirs.len() == 0 {
        next is Walk
    } else if s.fast {
        wants_the_end(s, next)
    } else {
        next matches ScanNext::List(d) && {
            &&& forall|i: int, j: int|
                0 <= i <= j < d@.len() ==> (#[trigger] d@[i]).0 <= (#[trigger] d@[j]).0
            &&& mft::id_pairs(d@).to_multiset() == mft::dirs_with_files(
                s.files,
                s.dirs,
            ).to_multiset()
        }
    }
}

/// The places of `n` files.
pub open spec fn all_places(n: nat) -> Seq<usize> {
    Seq::new(n, |i: int| i as usize)
}

/// What a scan wants that holds the files of a walk.
pub open spec fn wants_after_walk(s: VolumeScanView, next: ScanNext) -> bool {
    if s.fast || s.files.len() == 0 {
        next is Done
    } else {
        next matches ScanNext::Open(v) && v@ == all_places(s.files.len())
    }
}

/// The files as a scan keeps them from the table: without sizes on a fast scan.
pub open spec fn kept_files(files: Seq<RawEntryView>, fast: bool) -> Seq<RawEntryView> {
    if fast {
        files.map_values(|e: RawEntryView| mft::unsized_entry(e))
    } else {
        files
    }
}

/// The first pass gave nothing to go on with.
pub open spec fn pass_is_empty(p: EnumPassView) -> bool {
    !p.had_batch || (p.files.len() == 0 && p.dirs.len() == 0)
}

/// The scan that holds what a pass found.
pub open spec fn holds_pass(s: VolumeScanView, p: EnumPassView) -> bool {
    s.files == kept_files(p.files, s.fast) && s.dirs == p.dirs
}

fn start_scan(first: EnumPass, fast: bool, subtrees: bool) -> (r: (VolumeScan, ScanNext))
    ensures
        r.0@.fast == fast,
        r.0@.subtrees == subtrees,
        pass_is_empty(first@) ==> r.1 is SecondPass && r.0@.files == first@.files && r.0@.dirs
            == first@.dirs,
        !pass_is_empty(first@) ==> holds_pass(r.0@, first@) && wants_after_tables(r.0@, r.1),
{
    let again = mft::wants_second_pass(&first);
    let mut s = VolumeScan { files: first.files, dirs: first.dirs, fast, subtrees };
    if again {
        return (s, ScanNext::SecondPass);
    }
    let next = s.tables_read();
    (s, next)
}

/// Begins a scan that finds out sizes and times, with what the first pass over the file table
/// found; `subtrees` where reparse directories are walked as well.
pub fn scan_volume(first: EnumPass, subtrees: bool) -> (r: (VolumeScan, ScanNext))
    ensures
        !r.0@.fast,
        r.0@.subtrees == subtrees,
        pass_is_empty(first@) ==> r.1 is SecondPass && r.0@.files == first@.files && r.0@.dirs
            == first@.dirs,
        !pass_is_empty(first@) ==> holds_pass(r.0@, first@) && wants_after_tables(r.0@, r.1),
{
    start_scan(first, false, subtrees)
}

/// Begins a scan that leaves the sizes to be filled in later.
pub fn scan_volume_fast(first: EnumPass, subtrees: bool) -> (r: (VolumeScan, ScanNext))
    ensures
        r.0@.fast,
        r.0@.subtrees == subtrees,
        pass_is_empty(first@) ==> r.1 is SecondPass && r.0@.files == first@.files && r.0@.dirs
            == first@.dirs,
        !pass_is_empty(first@) ==> holds_pass(r.0@, first@) && wants_after_tables(r.0@, r.1),
{
    start_scan(first, true, subtrees)
}

impl VolumeScan {
    fn end(&self) -> (r: ScanNext)
        ensures
            wants_the_end(self@, r),
    {
        if self.subtrees {
            ScanNext::Subtrees(mft::reparse_directories(&self.dirs))
        } else {
            ScanNext::Done
        }
    }

    fn tables_read(&mut self) -> (r: ScanNext)
        ensures
            final(self)@.files == kept_files(old(self)@.files, old(self).fast),
            final(self)@.dirs == old(self)@.dirs,
            final(self).fast == old(self).fast,
            final(self).subtrees == old(self).subtrees,
            wants_after_tables(final(self)@, r),
    {
        if self.files.len() == 0 && self.dirs.len() == 0 {
            proof {
                assert(kept_files(self@.files, self.fast) =~= self@.files);
            }
            return ScanNext::Walk;
        }
        if self.fast {
            mft::clear_sizes(&mut self.files);
            return self.end();
        }
        ScanNext::List(mft::directories_to_query(&self.files, &self.dirs))
    }

    /// The second pass is over; nothing where it failed. What the first one found stays where the
    /// second found nothing.
    pub fn on_second_pass(&mut self, second: Option<EnumPass>) -> (r: ScanNext)
        ensures
            final(self).fast == old(self).fast,
            final(self).subtrees == old(self).subtrees,
            ({
                let found = match second {
                    Some(p) => if !pass_is_empty(p@) {
                        (p@.files, p@.dirs)
                    } else {
                        (old(self)@.files, old(self)@.dirs)
                    },
                    None => (old(self)@.files, old(self)@.dirs),
                };
                &&& final(self)@.files == kept_files(found.0, old(self).fast)
                &&& final(self)@.dirs == found.1
            }),
            wants_after_tables(final(self)@, r),
    {
        if let Some(p) = second {
            if !mft::wants_second_pass(&p) {
                self.files = p.files;
                self.dirs = p.dirs;
            }
        }
        self.tables_read()
    }

    /// The walk over the directories is over. On a full scan all of its files are opened by
    /// themselves; reparse directories are not walked again.
    pub fn on_walked(&mut self, items: Vec<WalkedItem>) -> (r: Result<ScanNext, Error>)
        ensures
            match mft::walk_outcome(items@, old(self).fast) {
                Ok(found) => {
                    &&& final(self)@ == (VolumeScanView {
                        files: found.0,
                        dirs: found.1,
                        fast: old(self).fast,
                        subtrees: false,
                    })
                    &&& r matches Ok(next) && wants_after_walk(final(self)@, next)
                },
                Err(e) => (r matches Err(x) && x@ == e) && *final(self) == *old(self),
            },
    {
        match mft::scan_volume_walk_fallback(items, self.fast) {
            Ok(found) => {
                self.files = found.0;
                self.dirs = found.1;
                self.subtrees = false;
                if self.fast || self.files.len() == 0 {
                    return Ok(ScanNext::Done);
                }
                let mut places: Vec<usize> = Vec::new();
                let mut i: usize = 0;
                while i < self.files.len()
                    invariant
                        i <= self.files.len(),
                        places@ =~= all_places(i as nat),
                    decreases self.files.len() - i,
                {
                    places.push(i);
                    i += 1;
                }
                Ok(ScanNext::Open(places))
            },
            Err(e) => Err(e),
        }
    }

    /// The listings of the directories were read.
    pub fn on_listings(&mut self, meta: &Vec<DirMetaRec>) -> (r: ScanNext)
        ensures
            final(self)@ == (VolumeScanView {
                files: old(self)@.files.map_values(
                    |e: RawEntryView| mft::with_meta(e, mft::meta_table(meta@)),
                ),
                ..old(self)@
            }),
            ({
                let miss = mft::missing(
                    old(self)@.files,
                    mft::meta_table(meta@),
                    old(self)@.files.len() as int,
                );
                if miss.len() > 0 {
                    r matches ScanNext::Open(v) && v@ == miss
                } else {
                    wants_the_end(final(self)@, r)
                }
            }),
    {
        let miss = mft::apply_dir_meta(&mut self.files, meta);
        if miss.len() > 0 {
            ScanNext::Open(miss)
        } else {
            self.end()
        }
    }

    /// The files were opened one by one.
    pub fn on_opened(&mut self, updates: &Vec<MetaUpdate>) -> (r: ScanNext)
        ensures
            final(self)@ == (VolumeScanView {
                files: mft::updated(old(self)@.files, updates@),
                ..old(self)@
            }),
            wants_the_end(final(self)@, r),
    {
        mft::apply_updates(&mut self.files, updates);
        self.end()
    }

    /// The subtrees of the reparse directories were walked.
    pub fn on_subtrees(&mut self, items: Vec<SubtreeItem>) -> (r: ScanNext)
        ensures
            r is Done,
            ({
                let known = mft::ids_of(old(self)@.files).union(mft::ids_of(old(self)@.dirs));
                let new = mft::newcomers(known, items@, old(self).fast).1;
                final(self)@ == (VolumeScanView {
                    files: old(self)@.files + mft::of_kind(new, false),
                    dirs: old(self)@.dirs + mft::of_kind(new, true),
                    ..old(self)@
                })
            }),
    {
        let mut known = mft::known_ids(&self.files, &self.dirs);
        mft::supplement_reparse_subtrees(
            &mut known,
            &mut self.files,
            &mut self.dirs,
            items,
            self.fast,
        );
        ScanNext::Done
    }
}

// ---- what a scan keeps --------------------------------------------------------------------

/// The same files in the same order: only sizes and times may differ.
pub open spec fn same_items(a: Seq<RawEntryView>, b: Seq<RawEntryView>) -> bool {
    &&& a.len() == b.len()
    &&& forall|i: int|
        0 <= i < a.len() ==> (#[trigger] a[i]) == (RawEntryView {
            size: a[i].size,
            mtime: a[i].mtime,
            ctime: a[i].ctime,
            ..b[i]
        })
}

/// Filling in sizes and times neither adds, drops nor moves a file, and changes nothing else of it:
/// not when sizes are left out, not with the listings, and not with files opened one by one.
pub proof fn law_scan_keeps_items(
    files: Seq<RawEntryView>,
    fast: bool,
    meta: Seq<DirMetaRec>,
    updates: Seq<MetaUpdate>,
)
    ensures
        same_items(kept_files(files, fast), files),
        same_items(
            files.map_values(|e: RawEntryView| mft::with_meta(e, mft::meta_table(meta))),
            files,
        ),
        same_items(mft::updated(files, updates), files),
    decreases updates.len(),
{
    if updates.len() > 0 {
        law_scan_keeps_items(files, fast, meta, updates.drop_last());
    }
}

/// Every file that a full scan has from the table gets its size and times from the listings, or is
/// opened by itself: the places to open are exactly those of the files that no listing mentioned.
pub proof fn law_every_file_is_read(files: Seq<RawEntryView>, meta: Seq<DirMetaRec>, i: int)
    requires
        0 <= i < files.len() <= usize::MAX,
    ensures
        mft::missing(files, mft::meta_table(meta), files.len() as int).contains(i as usize)
            <==> !mft::meta_table(meta).contains_key(files[i].file_id),
{
    lemma_missing(files, mft::meta_table(meta), files.len() as int, i);
}

/// Every file that a full scan has from a walk is opened by itself, and then the scan is over.
pub proof fn law_every_walked_file_is_read(
    s: VolumeScanView,
    next: ScanNext,
    updates: Seq<MetaUpdate>,
    last: ScanNext,
    i: int,
)
    requires
        !s.fast,
        !s.subtrees,
        wants_after_walk(s, next),
        wants_the_end(VolumeScanView { files: mft::updated(s.files, updates), ..s }, last),
        0 <= i < s.files.len() <= usize::MAX,
    ensures
        next matches ScanNext::Open(v) && v@.contains(i as usize),
        last is Done,
{
    assert(all_places(s.files.len())[i] == i as usize);
}

proof fn lemma_missing(
    files: Seq<RawEntryView>,
    table: Map<u64, (u64, u64, u64)>,
    n: int,
    i: int,
)
    requires
        0 <= i,
        0 <= n <= files.len() <= usize::MAX,
    ensures
        i < n ==> (mft::missing(files, table, n).contains(i as usize) <==> !table.contains_key(
            files[i].file_id,
        )),
        i >= n && i <= usize::MAX ==> !mft::missing(files, table, n).contains(i as usize),
    decreases n,
{
    if n > 0 {
        lemma_missing(files, table, n - 1, i);
        let before = mft::missing(files, table, n - 1);
        let place = (n - 1) as usize;
        if !table.contains_key(files[n - 1].file_id) {
            let after = before.push(place);
            assert(after.last() == place);
            assert(after.contains(place));
            if before.contains(i as usize) {
                let k = before.index_of(i as usize);
                assert(after[k] == i as usize);
            }
            if after.contains(i as usize) && !before.contains(i as usize) {
                let k = after.index_of(i as usize);
                if k < before.len() {
                    assert(before[k] == i as usize);
                }
            }
        }
    }
}

/// A fast scan keeps everything of a file but its size; a full scan keeps all of it.
pub proof fn law_kept_files(files: Seq<RawEntryView>, fast: bool, i: int)
    requires
        0 <= i < files.len(),
    ensures
        kept_files(files, fast).len() == files.len(),
        ({
            let k = kept_files(files, fast)[i];
            let f = files[i];
            &&& k.file_id == f.file_id && k.parent_id == f.parent_id && k.name == f.name
            &&& k.file_id_128 == f.file_id_128
            &&& k.mtime == f.mtime && k.ctime == f.ctime && k.attrs == f.attrs && k.is_dir == f.is_dir
            &&& fast ==> k.size == 0
            &&& !fast ==> k.size == f.size
        }),
{
}

/// An answer of the table is read as a batch, its end ends the pass, and its failure is one.
pub proof fn law_answers(p: EnumPassView, b: Seq<u8>, e: Seq<char>)
    ensures
        pass_after_answer(p, EnumAnswerView::Batch(b)) == Ok::<EnumPassView, ErrorView>(
            mft::pass_after(p, b),
        ),
        pass_after_answer(p, EnumAnswerView::EndOfTable) == Ok::<EnumPassView, ErrorView>(
            EnumPassView { done: true, ..p },
        ),
        pass_after_answer(p, EnumAnswerView::Failed(e)) is Err,
{
}

/// A pass over answers goes on with each where the one before left it. One that is done reads no
/// more, and one that failed stays failed.
pub proof fn law_pass_goes_on(p: EnumPassView, a: Seq<EnumAnswerView>, x: EnumAnswerView)
    ensures
        p.done ==> pass_over(p, a) == Ok::<EnumPassView, ErrorView>(p),
        pass_over(p, Seq::empty()) == Ok::<EnumPassView, ErrorView>(p),
        pass_over(p, a) is Err ==> pass_over(p, a.push(x)) == pass_over(p, a),
        pass_over(p, a) matches Ok(q) ==> {
            &&& q.done ==> pass_over(p, a.push(x)) == pass_over(p, a)
            &&& !q.done ==> match x {
                EnumAnswerView::Batch(b) => pass_over(p, a.push(x)) == Ok::<EnumPassView, ErrorView>(
                    mft::pass_after(q, b),
                ),
                EnumAnswerView::EndOfTable => pass_over(p, a.push(x)) matches Ok(r) && r.done
                    && r.files == q.files && r.dirs == q.dirs && r.had_batch == q.had_batch
                    && r.next_start == q.next_start,
                EnumAnswerView::Failed(e) => pass_over(p, a.push(x)) is Err,
            }
        },
    decreases a.len(),
{
    let s = a.push(x);
    if a.len() == 0 {
        assert(s[0] == x);
        assert(s.drop_first() =~= Seq::empty());
        reveal_with_fuel(pass_over, 2);
    } else {
        assert(s[0] == a[0]);
        assert(s.drop_first() =~= a.drop_first().push(x));
        if !p.done {
            if let Ok(q) = pass_after_answer(p, a[0]) {
                law_pass_goes_on(q, a.drop_first(), x);
            }
        }
    }
}

/// A pass begins with nothing found, at the first file.
pub proof fn law_start_of_a_pass()
    ensures
        ({
            let p = empty_pass();
            p.files.len() == 0 && p.dirs.len() == 0 && !p.had_batch && p.next_start == 0 && !p.done
        }),
        pass_is_empty(empty_pass()),
{
}

/// What follows the file table: a walk where it gave nothing; for a full scan the listing of each
/// directory that holds files; for a fast one the subtrees, where they are wanted, or the end.
pub proof fn law_after_the_table(s: VolumeScanView, next: ScanNext)
    ensures
        s.files.len() == 0 && s.dirs.len() == 0 ==> (wants_after_tables(s, next) <==> next is Walk),
        s.files.len() + s.dirs.len() > 0 && s.fast && !s.subtrees ==> (wants_after_tables(s, next)
            <==> next is Done),
        s.files.len() + s.dirs.len() > 0 && s.fast && s.subtrees && wants_after_tables(s, next)
            ==> next is Subtrees,
        s.files.len() + s.dirs.len() > 0 && !s.fast && wants_after_tables(s, next) ==> next is List,
{
}

} // verus!
