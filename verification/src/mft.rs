//! Scanning a volume: enumeration batches of the file table, the merge of sizes and times into the
//! entries, the walk that stands in where the table cannot be read, and the extra walk over
//! reparse directories.
use vstd::prelude::*;
use std::collections::{HashMap, HashSet};
use crate::bytes;
use crate::model::{Error, ErrorView, RawEntry, RawEntryView};
use crate::nt_dir_query::DirMetaRec;
use crate::sort;
use crate::text;
use crate::usn;
use crate::utf16;

verus! {

broadcast use {
    vstd::std_specs::hash::group_hash_axioms,
    vstd::seq_lib::group_to_multiset_ensures,
};

pub const ATTRIBUTE_REPARSE_POINT: u32 = 0x400;

// ---- enumeration --------------------------------------------------------------------------

/// The entry of one enumerated record: its time stamp stands for both times until the real ones
/// are read, its size is not known. Nothing for an unreadable record and for `.` and `..`.
pub open spec fn enumerated_entry(rec: Seq<u8>) -> Option<RawEntryView> {
    match usn::enum_record(rec) {
        None => None,
        Some(f) => match usn::record_name(rec, f) {
            None => None,
            Some(name) => if name == "."@ || name == ".."@ {
                None
            } else {
                Some(
                    RawEntryView {
                        file_id: f.file_ref,
                        file_id_128: f.file_id_128,
                        parent_id: f.parent_ref,
                        name,
                        size: 0,
                        mtime: f.timestamp,
                        ctime: f.timestamp,
                        attrs: f.attrs,
                        is_dir: usn::directory(f.attrs),
                    },
                )
            },
        },
    }
}

/// The entries of a run of records, in order.
pub open spec fn enumerated(recs: Seq<Seq<u8>>) -> Seq<RawEntryView>
    decreases recs.len(),
{
    if recs.len() == 0 {
        Seq::empty()
    } else {
        let rest = enumerated(recs.drop_first());
        match enumerated_entry(recs[0]) {
            Some(e) => seq![e] + rest,
            None => rest,
        }
    }
}

/// The directories of a run of entries, or its files.
pub open spec fn of_kind(s: Seq<RawEntryView>, dirs: bool) -> Seq<RawEntryView>
    decreases s.len(),
{
    if s.len() == 0 {
        Seq::empty()
    } else {
        let rest = of_kind(s.drop_first(), dirs);
        if s[0].is_dir == dirs {
            seq![s[0]] + rest
        } else {
            rest
        }
    }
}

fn parse_entry(rec: &[u8]) -> (r: Option<RawEntry>)
    ensures
        r matches Some(e) ==> enumerated_entry(rec@) == Some(e@),
        r is None ==> enumerated_entry(rec@) is None,
{
    match usn::parse_enum_usn_record(rec) {
        None => None,
        Some(f) => {
            if f.name_off + f.name_len > rec.len() {
                return None;
            }
            let name_bytes = usn::slice_between(rec, f.name_off, f.name_off + f.name_len);
            let name = utf16::text_of_bytes(&name_bytes);
            if text::same_text(&name, ".") || text::same_text(&name, "..") {
                return None;
            }
            Some(
                RawEntry {
                    file_id: f.file_ref,
                    file_id_128: f.file_id_128,
                    parent_id: f.parent_ref,
                    name,
                    size: 0,
                    mtime: f.timestamp,
                    ctime: f.timestamp,
                    attrs: f.attrs,
                    is_dir: f.attrs & usn::ATTRIBUTE_DIRECTORY != 0,
                },
            )
        },
    }
}

/// One pass over the file table.
pub struct EnumPass {
    pub files: Vec<RawEntry>,
    pub dirs: Vec<RawEntry>,
    /// The system has answered with at least one batch.
    pub had_batch: bool,
    /// Where the next batch starts.
    pub next_start: u64,
    pub done: bool,
}

pub struct EnumPassView {
    pub files: Seq<RawEntryView>,
    pub dirs: Seq<RawEntryView>,
    pub had_batch: bool,
    pub next_start: u64,
    pub done: bool,
}

impl View for EnumPass {
    type V = EnumPassView;

    open spec fn view(&self) -> EnumPassView {
        EnumPassView {
            files: crate::model::entries(self.files@),
            dirs: crate::model::entries(self.dirs@),
            had_batch: self.had_batch,
            next_start: self.next_start,
            done: self.done,
        }
    }
}

/// A pass after one more batch: fewer than eight bytes end it; otherwise the first eight bytes say
/// where the next batch starts, zero at the end.
pub open spec fn pass_after(p: EnumPassView, buf: Seq<u8>) -> EnumPassView {
    if buf.len() < 8 {
        EnumPassView { done: true, ..p }
    } else {
        let found = enumerated(usn::record_slices(buf, 8));
        EnumPassView {
            files: p.files + of_kind(found, false),
            dirs: p.dirs + of_kind(found, true),
            had_batch: true,
            next_start: bytes::u64_at(buf, 0),
            done: bytes::u64_at(buf, 0) == 0,
        }
    }
}

impl EnumPass {
    /// A pass that has read nothing.
    pub fn new() -> (r: Self)
        ensures
            r@ == (EnumPassView {
                files: Seq::empty(),
                dirs: Seq::empty(),
                had_batch: false,
                next_start: 0,
                done: false,
            }),
    {
        let r = EnumPass {
            files: Vec::new(),
            dirs: Vec::new(),
            had_batch: false,
            next_start: 0,
            done: false,
        };
        assert(crate::model::entries(r.files@) =~= Seq::empty());
        assert(crate::model::entries(r.dirs@) =~= Seq::empty());
        r
    }

    /// Takes in one batch and says how many entries it held.
    pub fn take_batch(&mut self, buf: &[u8]) -> (added: u64)
        ensures
            final(self)@ == pass_after(old(self)@, buf@),
            added == (if buf@.len() < 8 {
                0
            } else {
                enumerated(usn::record_slices(buf@, 8)).len()
            }),
    {
        let n: usize = buf.len();
        if n < 8 {
            self.done = true;
            return 0;
        }
        self.had_batch = true;
        self.next_start = bytes::read_u64(buf, 0);
        self.done = self.next_start == 0;
        let ghost files0 = crate::model::entries(old(self).files@);
        let ghost dirs0 = crate::model::entries(old(self).dirs@);
        let ghost all = enumerated(usn::record_slices(buf@, 8));
        let ghost mut got: Seq<RawEntryView> = Seq::empty();
        let mut added: u64 = 0;
        let mut off: usize = 8;
        proof {
            assert(got + all =~= all);
            assert(files0 + of_kind(got, false) =~= files0);
            assert(dirs0 + of_kind(got, true) =~= dirs0);
        }
        while off <= n && n - off >= 8
            invariant_except_break
                n == buf@.len(),
                n <= u64::MAX,
                8 <= off,
                added <= off,
                added == got.len(),
                got + enumerated(usn::record_slices(buf@, off as int)) == all,
                crate::model::entries(self.files@) == files0 + of_kind(got, false),
                crate::model::entries(self.dirs@) == dirs0 + of_kind(got, true),
                self.had_batch,
                self.next_start == bytes::u64_at(buf@, 0),
                self.done == (self.next_start == 0),
            ensures
                added == all.len(),
                crate::model::entries(self.files@) == files0 + of_kind(all, false),
                crate::model::entries(self.dirs@) == dirs0 + of_kind(all, true),
                self.had_batch,
                self.next_start == bytes::u64_at(buf@, 0),
                self.done == (self.next_start == 0),
            decreases n - off,
        {
            let ghost slices = usn::record_slices(buf@, off as int);
            let record_len: u32 = bytes::read_u32(buf, off);
            if record_len < 8 || (record_len as u64) > (n - off) as u64 {
                proof {
                    assert(slices =~= Seq::empty());
                    assert(got =~= all);
                }
                break;
            }
            let end: usize = off + record_len as usize;
            let rec = usn::slice_between(buf, off, end);
            proof {
                assert(slices[0] == rec@);
                assert(slices.drop_first() =~= usn::record_slices(buf@, end as int));
            }
            match parse_entry(&rec) {
                Some(e) => {
                    let ghost ev = e@;
                    let ghost rest = enumerated(slices.drop_first());
                    proof {
                        assert(got.push(ev) + rest =~= got + (seq![ev] + rest));
                        lemma_of_kind_push(got, ev, true);
                        lemma_of_kind_push(got, ev, false);
                    }
                    let ghost fv = crate::model::entries(self.files@);
                    let ghost dv = crate::model::entries(self.dirs@);
                    if e.is_dir {
                        self.dirs.push(e);
                        proof {
                            assert(crate::model::entries(self.dirs@) =~= dv.push(ev));
                            assert(dv.push(ev) =~= dirs0 + of_kind(got.push(ev), true));
                        }
                    } else {
                        self.files.push(e);
                        proof {
                            assert(crate::model::entries(self.files@) =~= fv.push(ev));
                            assert(fv.push(ev) =~= files0 + of_kind(got.push(ev), false));
                        }
                    }
                    added = added + 1;
                    proof {
                        got = got.push(ev);
                    }
                },
                None => {},
            }
            off = end;
        }
        added
    }
}

proof fn lemma_of_kind_push(s: Seq<RawEntryView>, e: RawEntryView, dirs: bool)
    ensures
        of_kind(s.push(e), dirs) == (if e.is_dir == dirs {
            of_kind(s, dirs).push(e)
        } else {
            of_kind(s, dirs)
        }),
    decreases s.len(),
{
    if s.len() == 0 {
        assert(s.push(e).drop_first() =~= Seq::empty());
        assert(of_kind(s.push(e).drop_first(), dirs) =~= Seq::empty());
        assert(s.push(e)[0] == e);
        assert(of_kind(s.push(e), dirs) =~= (if e.is_dir == dirs {
            of_kind(s, dirs).push(e)
        } else {
            of_kind(s, dirs)
        }));
    } else {
        lemma_of_kind_push(s.drop_first(), e, dirs);
        assert(s.push(e).drop_first() =~= s.drop_first().push(e));
        assert(of_kind(s.push(e), dirs) =~= (if e.is_dir == dirs {
            of_kind(s, dirs).push(e)
        } else {
            of_kind(s, dirs)
        }));
    }
}

/// A record that gives an entry: it can be read, and its name is neither `.` nor `..`.
pub open spec fn gives_entry(rec: Seq<u8>) -> bool {
    usn::legible(rec) && !usn::says_name(rec, "."@) && !usn::says_name(rec, ".."@)
}

/// The records that give a directory, or those that give a file.
pub open spec fn gives(dir: bool) -> spec_fn(Seq<u8>) -> bool {
    |rec: Seq<u8>| gives_entry(rec) && (usn::said_attrs(rec) & 0x10 != 0) == dir
}

/// The entry says what the record says: which file it is, the directory it is in, its name, its
/// attributes and kind, its identifier, and one time for both; its size is not known.
pub open spec fn entry_says(e: RawEntryView, rec: Seq<u8>) -> bool {
    &&& e.file_id == usn::said_file(rec)
    &&& e.parent_id == usn::said_parent(rec)
    &&& usn::says_name(rec, e.name)
    &&& e.attrs == usn::said_attrs(rec)
    &&& e.is_dir <==> usn::said_attrs(rec) & 0x10 != 0
    &&& e.file_id_128 == usn::said_id(rec)
    &&& e.mtime == usn::said_time(rec)
    &&& e.ctime == usn::said_time(rec)
    &&& e.size == 0
}

proof fn lemma_enumerated_entry(rec: Seq<u8>)
    requires
        rec.len() >= 8,
        bytes::u32_at(rec, 0) == rec.len(),
    ensures
        enumerated_entry(rec) is Some <==> gives_entry(rec),
        enumerated_entry(rec) matches Some(e) ==> entry_says(e, rec),
{
}

proof fn lemma_enumerated_push(recs: Seq<Seq<u8>>, x: Seq<u8>)
    ensures
        enumerated(recs.push(x)) == (match enumerated_entry(x) {
            Some(e) => enumerated(recs).push(e),
            None => enumerated(recs),
        }),
    decreases recs.len(),
{
    let all = recs.push(x);
    if recs.len() == 0 {
        assert(all.drop_first() =~= Seq::empty());
        assert(enumerated(all.drop_first()) =~= Seq::empty());
    } else {
        assert(all.drop_first() =~= recs.drop_first().push(x));
        lemma_enumerated_push(recs.drop_first(), x);
    }
    assert(enumerated(all) =~= (match enumerated_entry(x) {
        Some(e) => enumerated(recs).push(e),
        None => enumerated(recs),
    }));
}

proof fn lemma_entries_of_records(recs: Seq<Seq<u8>>, dir: bool)
    requires
        usn::each_states_its_length(recs),
    ensures
        of_kind(enumerated(recs), dir).len() == recs.filter(gives(dir)).len(),
        forall|k: int|
            0 <= k < recs.filter(gives(dir)).len() ==> entry_says(
                #[trigger] of_kind(enumerated(recs), dir)[k],
                recs.filter(gives(dir))[k],
            ),
    decreases recs.len(),
{
    if recs.len() == 0 {
        reveal(Seq::filter);
    } else {
        let t = recs.drop_last();
        let x = recs.last();
        assert(t.push(x) =~= recs);
        assert(usn::each_states_its_length(t)) by {
            assert forall|i: int| 0 <= i < t.len() implies (#[trigger] t[i]).len() >= 8
                && bytes::u32_at(t[i], 0) == t[i].len() by {
                assert(t[i] == recs[i]);
            }
        }
        assert(recs[recs.len() - 1] == x);
        lemma_entries_of_records(t, dir);
        lemma_enumerated_push(t, x);
        lemma_enumerated_entry(x);
        crate::lists::lemma_filter_push(t, x, gives(dir));
        if let Some(e) = enumerated_entry(x) {
            lemma_of_kind_push(enumerated(t), e, dir);
        }
        assert forall|k: int| 0 <= k < recs.filter(gives(dir)).len() implies entry_says(
            #[trigger] of_kind(enumerated(recs), dir)[k],
            recs.filter(gives(dir))[k],
        ) by {
            if k < t.filter(gives(dir)).len() {
                assert(entry_says(of_kind(enumerated(t), dir)[k], t.filter(gives(dir))[k]));
            }
        }
    }
}

/// The files, or the directories, of a pass.
pub open spec fn kind_of_pass(p: EnumPassView, dir: bool) -> Seq<RawEntryView> {
    if dir {
        p.dirs
    } else {
        p.files
    }
}

/// Each record of a batch that gives an entry gives one of its kind, behind those that were there
/// and in the order of the records, and the entry says what the record says.
pub proof fn law_entries_say_what_the_table_says(
    p: EnumPassView,
    head: Seq<u8>,
    recs: Seq<Seq<u8>>,
    dir: bool,
    i: int,
)
    requires
        head.len() == 8,
        usn::each_states_its_length(recs),
        0 <= i < recs.len(),
        gives_entry(recs[i]),
        dir == (usn::said_attrs(recs[i]) & 0x10 != 0),
    ensures
        ({
            let after = kind_of_pass(pass_after(p, head + usn::in_a_row(recs)), dir);
            let k = kind_of_pass(p, dir).len() + recs.take(i).filter(gives(dir)).len();
            k < after.len() && entry_says(after[k as int], recs[i])
        }),
{
    usn::law_records_are_found(head, recs);
    lemma_entries_of_records(recs, dir);
    assert(gives(dir)(recs[i]));
    crate::lists::lemma_filter_position(recs, gives(dir), i);
    let k = recs.take(i).filter(gives(dir)).len() as int;
    assert(entry_says(of_kind(enumerated(recs), dir)[k], recs.filter(gives(dir))[k]));
}

/// A batch takes nothing away, and every entry that it brings is of a record in it.
pub proof fn law_no_entry_without_a_record(
    p: EnumPassView,
    head: Seq<u8>,
    recs: Seq<Seq<u8>>,
    dir: bool,
    k: int,
) -> (i: int)
    requires
        head.len() == 8,
        usn::each_states_its_length(recs),
        0 <= k < kind_of_pass(pass_after(p, head + usn::in_a_row(recs)), dir).len(),
    ensures
        ({
            let before = kind_of_pass(p, dir);
            let after = kind_of_pass(pass_after(p, head + usn::in_a_row(recs)), dir);
            &&& after.len() == before.len() + recs.filter(gives(dir)).len()
            &&& k < before.len() ==> after[k] == before[k]
            &&& k >= before.len() ==> 0 <= i < recs.len() && gives_entry(recs[i]) && entry_says(
                after[k],
                recs[i],
            )
        }),
{
    usn::law_records_are_found(head, recs);
    lemma_entries_of_records(recs, dir);
    let before = kind_of_pass(p, dir);
    if k >= before.len() {
        let i = crate::lists::lemma_filter_origin(recs, gives(dir), k - before.len());
        assert(entry_says(
            of_kind(enumerated(recs), dir)[k - before.len()],
            recs.filter(gives(dir))[k - before.len()],
        ));
        i
    } else {
        0
    }
}

/// The next batch starts where the first eight bytes of this one say, and there is none where they
/// are zero or missing.
pub proof fn law_next_batch(p: EnumPassView, buf: Seq<u8>)
    ensures
        buf.len() >= 8 ==> pass_after(p, buf).next_start == bytes::u64_at(buf, 0) && pass_after(
            p,
            buf,
        ).had_batch && (pass_after(p, buf).done <==> bytes::u64_at(buf, 0) == 0),
        buf.len() < 8 ==> pass_after(p, buf) == (EnumPassView { done: true, ..p }),
{
}

/// Every enumerated entry is either among the files or among the directories, and keeps its kind.
pub proof fn law_kinds_split(s: Seq<RawEntryView>)
    ensures
        of_kind(s, true).len() + of_kind(s, false).len() == s.len(),
        forall|i: int| 0 <= i < of_kind(s, true).len() ==> (#[trigger] of_kind(s, true)[i]).is_dir,
        forall|i: int|
            0 <= i < of_kind(s, false).len() ==> !(#[trigger] of_kind(s, false)[i]).is_dir,
    decreases s.len(),
{
    if s.len() > 0 {
        law_kinds_split(s.drop_first());
    }
}

/// The first pass gave nothing, so the newer request form is tried.
pub fn wants_second_pass(p: &EnumPass) -> (r: bool)
    ensures
        r == (!p@.had_batch || (p@.files.len() == 0 && p@.dirs.len() == 0)),
{
    !p.had_batch || (p.files.len() == 0 && p.dirs.len() == 0)
}

// ---- sizes and times ----------------------------------------------------------------------

/// The entry without a size.
pub open spec fn unsized_entry(e: RawEntryView) -> RawEntryView {
    RawEntryView { size: 0, ..e }
}

/// Forgets the sizes: a fast scan leaves them to be filled in later.
pub fn clear_sizes(files: &mut Vec<RawEntry>)
    ensures
        crate::model::entries(final(files)@) == crate::model::entries(old(files)@).map_values(
            |e: RawEntryView| unsized_entry(e),
        ),
{
    let mut i: usize = 0;
    let n: usize = files.len();
    while i < n
        invariant
            n == files@.len(),
            n == old(files)@.len(),
            i <= n,
            forall|k: int| 0 <= k < i ==> (#[trigger] files@[k])@ == unsized_entry(old(files)@[k]@),
            forall|k: int| i <= k < n ==> #[trigger] files@[k] == old(files)@[k],
        decreases n - i,
    {
        files[i].size = 0;
        i += 1;
    }
    assert(crate::model::entries(files@) =~= crate::model::entries(old(files)@).map_values(
        |e: RawEntryView| unsized_entry(e),
    ));
}

/// Some file lies directly in the directory `dir`.
pub open spec fn has_file(files: Seq<RawEntryView>, dir: u64) -> bool {
    exists|i: int| 0 <= i < files.len() && (#[trigger] files[i]).parent_id == dir
}

/// The directories that hold a file, by their identifiers, in the order of the scan.
pub open spec fn dirs_with_files(files: Seq<RawEntryView>, dirs: Seq<RawEntryView>) -> Seq<
    (u64, Option<Seq<u8>>),
>
    decreases dirs.len(),
{
    if dirs.len() == 0 {
        Seq::empty()
    } else {
        let rest = dirs_with_files(files, dirs.drop_last());
        if has_file(files, dirs.last().file_id) {
            rest.push((dirs.last().file_id, dirs.last().file_id_128))
        } else {
            rest
        }
    }
}

pub open spec fn id_pairs(v: Seq<(u64, Option<[u8; 16]>)>) -> Seq<(u64, Option<Seq<u8>>)> {
    v.map_values(|p: (u64, Option<[u8; 16]>)| (p.0, crate::model::id_bytes(p.1)))
}

/// The directories whose listings are read: those that hold a file, in ascending order of their
/// reference numbers.
pub fn directories_to_query(files: &Vec<RawEntry>, dirs: &Vec<RawEntry>) -> (r: Vec<
    (u64, Option<[u8; 16]>),
>)
    ensures
        forall|i: int, j: int| 0 <= i <= j < r@.len() ==> (#[trigger] r@[i]).0 <= (#[trigger] r@[j]).0,
        id_pairs(r@).to_multiset() == dirs_with_files(
            crate::model::entries(files@),
            crate::model::entries(dirs@),
        ).to_multiset(),
{
    let ghost fv = crate::model::entries(files@);
    let ghost dv = crate::model::entries(dirs@);
    let mut parents: HashSet<u64> = HashSet::new();
    let mut i: usize = 0;
    while i < files.len()
        invariant
            i <= files.len(),
            fv == crate::model::entries(files@),
            forall|p: u64| #[trigger] parents@.contains(p) == has_file(fv.take(i as int), p),
        decreases files.len() - i,
    {
        let p: u64 = files[i].parent_id;
        let ghost before = parents@;
        parents.insert(p);
        proof {
            assert forall|q: u64| #[trigger] parents@.contains(q) == has_file(fv.take(i + 1), q) by {
                let t = fv.take(i as int);
                let u = fv.take(i + 1);
                assert(u =~= t.push(fv[i as int]));
                if has_file(t, q) {
                    let k = choose|k: int| 0 <= k < t.len() && (#[trigger] t[k]).parent_id == q;
                    assert(u[k].parent_id == q);
                }
                if q == p {
                    assert(u[i as int].parent_id == p);
                }
                if has_file(u, q) && q != p {
                    let k = choose|k: int| 0 <= k < u.len() && (#[trigger] u[k]).parent_id == q;
                    assert(t[k].parent_id == q);
                }
            }
        }
        i += 1;
    }
    proof {
        assert(fv.take(fv.len() as int) =~= fv);
    }
    let ghost f = |k: sort::Keyed| (dv[k.1 as int].file_id, dv[k.1 as int].file_id_128);
    let mut keyed: Vec<sort::Keyed> = Vec::new();
    let mut j: usize = 0;
    proof {
        assert(keyed@.map_values(f) =~= dirs_with_files(fv, dv.take(0)));
    }
    while j < dirs.len()
        invariant
            j <= dirs.len(),
            dv == crate::model::entries(dirs@),
            f == (|k: sort::Keyed| (dv[k.1 as int].file_id, dv[k.1 as int].file_id_128)),
            forall|p: u64| #[trigger] parents@.contains(p) == has_file(fv, p),
            forall|k: int|
                0 <= k < keyed@.len() ==> (#[trigger] keyed@[k]).1 < dirs@.len() && keyed@[k].0
                    == dirs@[keyed@[k].1 as int].file_id,
            keyed@.map_values(f) == dirs_with_files(fv, dv.take(j as int)),
        decreases dirs.len() - j,
    {
        let id: u64 = dirs[j].file_id;
        proof {
            assert(dv.take(j + 1).drop_last() =~= dv.take(j as int));
        }
        if parents.contains(&id) {
            let ghost before = keyed@;
            keyed.push((id, j));
            proof {
                assert(keyed@.map_values(f) =~= before.map_values(f).push(
                    (dv[j as int].file_id, dv[j as int].file_id_128),
                ));
            }
        }
        j += 1;
    }
    proof {
        assert(dv.take(dv.len() as int) =~= dv);
    }
    let ghost unsorted = keyed@;
    let sorted = sort::sort_keyed(keyed);
    proof {
        sort::lemma_map_multiset(sorted@, unsorted, f);
        assert forall|k: int| 0 <= k < sorted@.len() implies (#[trigger] sorted@[k]).1 < dirs@.len()
            && sorted@[k].0 == dirs@[sorted@[k].1 as int].file_id by {
            assert(sorted@.contains(sorted@[k]));
            assert(unsorted.to_multiset().count(sorted@[k]) > 0);
            assert(unsorted.contains(sorted@[k]));
            let m = unsorted.index_of(sorted@[k]);
            assert(unsorted[m] == sorted@[k]);
        }
    }
    let mut out: Vec<(u64, Option<[u8; 16]>)> = Vec::new();
    let mut k: usize = 0;
    while k < sorted.len()
        invariant
            k <= sorted.len(),
            dv == crate::model::entries(dirs@),
            f == (|k: sort::Keyed| (dv[k.1 as int].file_id, dv[k.1 as int].file_id_128)),
            out@.len() == k,
            sort::ordered(sorted@),
            forall|m: int|
                0 <= m < sorted@.len() ==> (#[trigger] sorted@[m]).1 < dirs@.len() && sorted@[m].0
                    == dirs@[sorted@[m].1 as int].file_id,
            forall|m: int| 0 <= m < k ==> (#[trigger] out@[m]).0 == sorted@[m].0,
            id_pairs(out@) == sorted@.take(k as int).map_values(f),
        decreases sorted.len() - k,
    {
        let at: usize = sorted[k].1;
        let ghost before = id_pairs(out@);
        out.push((dirs[at].file_id, dirs[at].file_id_128));
        proof {
            assert(id_pairs(out@) =~= before.push(f(sorted@[k as int])));
            assert(sorted@.take(k + 1).map_values(f) =~= sorted@.take(k as int).map_values(f).push(
                f(sorted@[k as int]),
            ));
        }
        k += 1;
    }
    proof {
        assert(sorted@.take(sorted@.len() as int) =~= sorted@);
    }
    out
}

/// Size and times by reference number; the last statement about a file counts.
pub open spec fn meta_table(meta: Seq<DirMetaRec>) -> Map<u64, (u64, u64, u64)>
    decreases meta.len(),
{
    if meta.len() == 0 {
        Map::empty()
    } else {
        let m = meta.last();
        meta_table(meta.drop_last()).insert(m.0, (m.1, m.2, m.3))
    }
}

/// The entry with the size and times of the table, where it is there.
pub open spec fn with_meta(e: RawEntryView, table: Map<u64, (u64, u64, u64)>) -> RawEntryView {
    if table.contains_key(e.file_id) {
        let m = table[e.file_id];
        RawEntryView { size: m.0, mtime: m.1, ctime: m.2, ..e }
    } else {
        e
    }
}

/// The places of the entries, among the first `n`, that the table does not know.
pub open spec fn missing(
    files: Seq<RawEntryView>,
    table: Map<u64, (u64, u64, u64)>,
    n: int,
) -> Seq<usize>
    decreases n,
{
    if n <= 0 {
        Seq::empty()
    } else if table.contains_key(files[n - 1].file_id) {
        missing(files, table, n - 1)
    } else {
        missing(files, table, n - 1).push((n - 1) as usize)
    }
}

/// Writes what the directory listings say into the files and returns the places of those that no
/// listing mentioned.
pub fn apply_dir_meta(files: &mut Vec<RawEntry>, meta: &Vec<DirMetaRec>) -> (miss: Vec<usize>)
    ensures
        crate::model::entries(final(files)@) == crate::model::entries(old(files)@).map_values(
            |e: RawEntryView| with_meta(e, meta_table(meta@)),
        ),
        miss@ == missing(
            crate::model::entries(old(files)@),
            meta_table(meta@),
            old(files)@.len() as int,
        ),
{
    let ghost before = crate::model::entries(files@);
    let ghost want = meta_table(meta@);
    let mut table: HashMap<u64, (u64, u64, u64)> = HashMap::new();
    let mut j: usize = 0;
    proof {
        assert(meta@.take(0) =~= Seq::empty());
        assert(table@ =~= meta_table(meta@.take(0)));
    }
    while j < meta.len()
        invariant
            j <= meta.len(),
            table@ == meta_table(meta@.take(j as int)),
        decreases meta.len() - j,
    {
        let m = meta[j];
        table.insert(m.0, (m.1, m.2, m.3));
        proof {
            assert(meta@.take(j + 1).drop_last() =~= meta@.take(j as int));
        }
        j += 1;
    }
    proof {
        assert(meta@.take(meta@.len() as int) =~= meta@);
    }
    let n: usize = files.len();
    let mut miss: Vec<usize> = Vec::new();
    let mut i: usize = 0;
    while i < n
        invariant
            n == files@.len(),
            n == old(files)@.len(),
            i <= n,
            before == crate::model::entries(old(files)@),
            table@ == want,
            miss@ == missing(before, want, i as int),
            forall|k: int| 0 <= k < i ==> (#[trigger] files@[k])@ == with_meta(before[k], want),
            forall|k: int| i <= k < n ==> #[trigger] files@[k] == old(files)@[k],
        decreases n - i,
    {
        let id: u64 = files[i].file_id;
        proof {
            assert(before[i as int] == old(files)@[i as int]@);
        }
        match table.get(&id) {
            Some(m) => {
                let e = &mut files[i];
                e.size = m.0;
                e.mtime = m.1;
                e.ctime = m.2;
            },
            None => {
                miss.push(i);
            },
        }
        i += 1;
    }
    assert(crate::model::entries(files@) =~= before.map_values(
        |e: RawEntryView| with_meta(e, meta_table(meta@)),
    ));
    miss
}

/// A place with its size, modification and creation time.
pub type MetaUpdate = (usize, u64, u64, u64);

/// The files after the updates, in order; an update past the end is dropped.
pub open spec fn updated(files: Seq<RawEntryView>, updates: Seq<MetaUpdate>) -> Seq<RawEntryView>
    decreases updates.len(),
{
    if updates.len() == 0 {
        files
    } else {
        let before = updated(files, updates.drop_last());
        let u = updates.last();
        if u.0 < before.len() {
            before.update(
                u.0 as int,
                RawEntryView { size: u.1, mtime: u.2, ctime: u.3, ..before[u.0 as int] },
            )
        } else {
            before
        }
    }
}

proof fn lemma_updated_len(files: Seq<RawEntryView>, updates: Seq<MetaUpdate>)
    ensures
        updated(files, updates).len() == files.len(),
    decreases updates.len(),
{
    if updates.len() > 0 {
        lemma_updated_len(files, updates.drop_last());
    }
}

/// Writes sizes and times that were read file by file.
pub fn apply_updates(files: &mut Vec<RawEntry>, updates: &Vec<MetaUpdate>)
    ensures
        crate::model::entries(final(files)@) == updated(
            crate::model::entries(old(files)@),
            updates@,
        ),
{
    let ghost before = crate::model::entries(files@);
    let mut i: usize = 0;
    proof {
        assert(updates@.take(0) =~= Seq::empty());
    }
    while i < updates.len()
        invariant
            i <= updates.len(),
            crate::model::entries(files@) == updated(before, updates@.take(i as int)),
        decreases updates.len() - i,
    {
        let u = updates[i];
        let ghost cur = files@;
        proof {
            assert(updates@.take(i + 1).drop_last() =~= updates@.take(i as int));
        }
        if u.0 < files.len() {
            let e = &mut files[u.0];
            e.size = u.1;
            e.mtime = u.2;
            e.ctime = u.3;
            proof {
                let cv = crate::model::entries(cur);
                assert(crate::model::entries(files@) =~= cv.update(
                    u.0 as int,
                    RawEntryView { size: u.1, mtime: u.2, ctime: u.3, ..cv[u.0 as int] },
                ));
            }
        }
        i += 1;
    }
    proof {
        assert(updates@.take(updates@.len() as int) =~= updates@);
    }
}

/// Filling in sizes and times neither adds nor drops an entry, and touches nothing else of it.
pub proof fn law_meta_touches_nothing_else(
    e: RawEntryView,
    table: Map<u64, (u64, u64, u64)>,
)
    ensures
        with_meta(e, table) == (RawEntryView {
            size: with_meta(e, table).size,
            mtime: with_meta(e, table).mtime,
            ctime: with_meta(e, table).ctime,
            ..e
        }),
{
}

// ---- the walk that stands in for the table ------------------------------------------------

/// One item of a directory walk.
pub struct WalkedItem {
    /// Empty where the item has no name that is text.
    pub name: String,
    pub file_id: Option<u64>,
    pub parent_id: Option<u64>,
    pub is_dir: bool,
    /// The size, or why it could not be read.
    pub size: Result<u64, String>,
}

pub open spec fn walked_entry(w: WalkedItem, size: u64) -> RawEntryView {
    RawEntryView {
        file_id: w.file_id->0,
        file_id_128: None,
        parent_id: match w.parent_id {
            Some(p) => p,
            None => 0,
        },
        name: w.name@,
        size,
        mtime: 0,
        ctime: 0,
        attrs: if w.is_dir {
            0x10
        } else {
            0
        },
        is_dir: w.is_dir,
    }
}

/// The item has a name and an identifier.
pub open spec fn usable(w: WalkedItem) -> bool {
    w.name@.len() > 0 && w.file_id is Some
}

/// The entries of the usable items, in order; the first usable item whose size cannot be read
/// fails the walk.
pub open spec fn walked(items: Seq<WalkedItem>) -> Result<Seq<RawEntryView>, Seq<char>>
    decreases items.len(),
{
    if items.len() == 0 {
        Ok(Seq::empty())
    } else {
        match walked(items.drop_last()) {
            Err(e) => Err(e),
            Ok(s) => {
                let w = items.last();
                if !usable(w) {
                    Ok(s)
                } else {
                    match w.size {
                        Ok(n) => Ok(s.push(walked_entry(w, n))),
                        Err(e) => Err(e@),
                    }
                }
            },
        }
    }
}

proof fn lemma_walk_failed(items: Seq<WalkedItem>, k: int, e: Seq<char>)
    requires
        0 <= k <= items.len(),
        walked(items.take(k)) == Err::<Seq<RawEntryView>, Seq<char>>(e),
    ensures
        walked(items) == Err::<Seq<RawEntryView>, Seq<char>>(e),
    decreases items.len() - k,
{
    if k < items.len() {
        assert(items.take(k + 1).drop_last() =~= items.take(k));
        lemma_walk_failed(items, k + 1, e);
    } else {
        assert(items.take(k) =~= items);
    }
}

/// What a walk over a volume amounts to: the files and directories found, sizes left out on a fast
/// scan; a failure where a size could not be read or nothing was found.
pub open spec fn walk_outcome(items: Seq<WalkedItem>, fast: bool) -> Result<
    (Seq<RawEntryView>, Seq<RawEntryView>),
    ErrorView,
> {
    match walked(items) {
        Err(e) => Err(ErrorView::Platform("元数据: "@ + e)),
        Ok(s) => if s.len() == 0 {
            Err(
                ErrorView::Platform(
                    "MFT 枚举与目录遍历均未得到条目：请以管理员运行、确认卷为本地 NTFS。"@,
                ),
            )
        } else if fast {
            Ok(
                (
                    of_kind(s, false).map_values(|e: RawEntryView| unsized_entry(e)),
                    of_kind(s, true),
                ),
            )
        } else {
            Ok((of_kind(s, false), of_kind(s, true)))
        },
    }
}

pub open spec fn scan_view(r: Result<(Vec<RawEntry>, Vec<RawEntry>), Error>) -> Result<
    (Seq<RawEntryView>, Seq<RawEntryView>),
    ErrorView,
> {
    match r {
        Ok(p) => Ok((crate::model::entries(p.0@), crate::model::entries(p.1@))),
        Err(e) => Err(e@),
    }
}

/// Turns the items of a directory walk into files and directories.
pub fn scan_volume_walk_fallback(items: Vec<WalkedItem>, fast: bool) -> (r: Result<
    (Vec<RawEntry>, Vec<RawEntry>),
    Error,
>)
    ensures
        scan_view(r) == walk_outcome(items@, fast),
{
    let ghost all = items@;
    let mut files: Vec<RawEntry> = Vec::new();
    let mut dirs: Vec<RawEntry> = Vec::new();
    let ghost mut got: Seq<RawEntryView> = Seq::empty();
    proof {
        assert(all.take(0) =~= Seq::empty());
        assert(crate::model::entries(files@) =~= of_kind(got, false));
        assert(crate::model::entries(dirs@) =~= of_kind(got, true));
    }
    for w in it: items
        invariant
            it.seq() == all,
            walked(all.take(it.index() as int)) == Ok::<Seq<RawEntryView>, Seq<char>>(got),
            crate::model::entries(files@) == of_kind(got, false),
            crate::model::entries(dirs@) == of_kind(got, true),
            files@.len() + dirs@.len() == got.len(),
    {
        proof {
            assert(all.take(it.index() + 1).drop_last() =~= all.take(it.index() as int));
            assert(all.take(it.index() + 1).last() == w);
        }
        let ghost wv = w;
        if !w.name.as_str().is_empty() && w.file_id.is_some() {
            let id: u64 = match w.file_id {
                Some(id) => id,
                None => 0,
            };
            let size: u64 = match w.size {
                Ok(n) => n,
                Err(e) => {
                    proof {
                        lemma_walk_failed(all, it.index() + 1, e@);
                    }
                    let mut t = text::copied("元数据: ");
                    t.push_str(&e);
                    return Err(Error::Platform(t));
                },
            };
            let entry = RawEntry {
                file_id: id,
                file_id_128: None,
                parent_id: match w.parent_id {
                    Some(p) => p,
                    None => 0,
                },
                name: w.name,
                size,
                mtime: 0,
                ctime: 0,
                attrs: if w.is_dir {
                    0x10
                } else {
                    0
                },
                is_dir: w.is_dir,
            };
            let ghost ev = entry@;
            proof {
                assert(ev == walked_entry(wv, size));
                lemma_of_kind_push(got, ev, true);
                lemma_of_kind_push(got, ev, false);
            }
            let ghost fv = crate::model::entries(files@);
            let ghost dv = crate::model::entries(dirs@);
            if w.is_dir {
                dirs.push(entry);
                proof {
                    assert(crate::model::entries(dirs@) =~= dv.push(ev));
                }
            } else {
                files.push(entry);
                proof {
                    assert(crate::model::entries(files@) =~= fv.push(ev));
                }
            }
            proof {
                got = got.push(ev);
            }
        }
    }
    proof {
        assert(all.take(all.len() as int) =~= all);
    }
    if files.len() == 0 && dirs.len() == 0 {
        return Err(
            Error::Platform(
                text::copied(
                    "MFT 枚举与目录遍历均未得到条目：请以管理员运行、确认卷为本地 NTFS。",
                ),
            ),
        );
    }
    if fast {
        clear_sizes(&mut files);
    }
    Ok((files, dirs))
}

// ---- reparse directories ------------------------------------------------------------------

/// The reparse directories of a run, by their identifiers.
pub open spec fn reparse_of(dirs: Seq<RawEntryView>) -> Seq<(u64, Option<Seq<u8>>)>
    decreases dirs.len(),
{
    if dirs.len() == 0 {
        Seq::empty()
    } else {
        let rest = reparse_of(dirs.drop_last());
        if dirs.last().attrs & ATTRIBUTE_REPARSE_POINT != 0 {
            rest.push((dirs.last().file_id, dirs.last().file_id_128))
        } else {
            rest
        }
    }
}

/// The reparse directories, whose subtrees an enumeration may have missed.
pub fn reparse_directories(dirs: &Vec<RawEntry>) -> (r: Vec<(u64, Option<[u8; 16]>)>)
    ensures
        id_pairs(r@) == reparse_of(crate::model::entries(dirs@)),
{
    let ghost dv = crate::model::entries(dirs@);
    let mut out: Vec<(u64, Option<[u8; 16]>)> = Vec::new();
    let mut i: usize = 0;
    proof {
        assert(dv.take(0) =~= Seq::empty());
        assert(id_pairs(out@) =~= Seq::empty());
    }
    while i < dirs.len()
        invariant
            i <= dirs.len(),
            dv == crate::model::entries(dirs@),
            id_pairs(out@) == reparse_of(dv.take(i as int)),
        decreases dirs.len() - i,
    {
        proof {
            assert(dv.take(i + 1).drop_last() =~= dv.take(i as int));
            assert(dv.take(i + 1).last() == dirs@[i as int]@);
        }
        if dirs[i].attrs & ATTRIBUTE_REPARSE_POINT != 0 {
            let ghost before = id_pairs(out@);
            out.push((dirs[i].file_id, dirs[i].file_id_128));
            proof {
                assert(id_pairs(out@) =~= before.push((dv[i as int].file_id, dv[i as int].file_id_128)));
            }
        }
        i += 1;
    }
    proof {
        assert(dv.take(dv.len() as int) =~= dv);
    }
    out
}

/// The path lies below the root of the drive with this letter: the letter in either case, a colon
/// and at least one more character.
pub open spec fn below_drive(path: Seq<char>, letter: char) -> bool {
    path.len() >= 3 && text::upper(path[0]) == letter && path[1] == ':'
}

/// Whether the subtree at `path` belongs to the volume that is scanned; a volume without a letter
/// counts as `?`.
pub fn subtree_on_volume(volume: &str, path: &str) -> (r: bool)
    ensures
        r == below_drive(
            path@,
            match crate::volumes::drive_letter(volume@) {
                Some(c) => c,
                None => '?',
            },
        ),
{
    let letter: char = match crate::volumes::volume_drive_letter(volume) {
        Some(b) => b as char,
        None => '?',
    };
    let cs = text::chars_of(path);
    cs.len() >= 3 && text::upper_char(cs[0]) == letter && cs[1] == ':'
}

/// The path without the `\\?\` mark, unless it names a network share.
pub open spec fn plain_path(path: Seq<char>) -> Seq<char> {
    if text::begins_with(path, "\\\\?\\"@) && !text::begins_with(path.skip(4), "UNC\\"@) {
        path.skip(4)
    } else {
        path
    }
}

pub fn without_verbatim_mark(path: &str) -> (r: String)
    ensures
        r@ == plain_path(path@),
{
    proof {
        reveal_strlit("\\\\?\\");
    }
    if text::starts_with(path, "\\\\?\\") {
        let cs = text::chars_of(path);
        let n: usize = cs.len();
        let rest = text::string_between(&cs, 4, n);
        proof {
            assert(rest@ =~= path@.skip(4));
        }
        if !text::starts_with(&rest, "UNC\\") {
            return rest;
        }
    }
    text::copied(path)
}

/// The path that the system gave for a file, in the first `n` units of the buffer; nothing where it
/// gave none or the buffer was too small.
pub fn resolve_path_by_id(buf: &[u16], n: u32) -> (r: Option<String>)
    ensures
        match r {
            Some(p) => 0 < n < buf@.len() && p@ == plain_path(
                utf16::decoded(buf@.subrange(0, n as int)),
            ),
            None => n == 0 || n >= buf@.len(),
        },
{
    if n == 0 || n as usize >= buf.len() {
        return None;
    }
    let s = utf16::from_wide(vstd::slice::slice_subrange(buf, 0, n as usize));
    Some(without_verbatim_mark(&s))
}

/// A 64-bit number from its halves.
pub fn combine(high: u32, low: u32) -> (r: u64)
    ensures
        r == high * 0x1_0000_0000 + low,
{
    high as u64 * 0x1_0000_0000 + low as u64
}

/// One item below a reparse directory.
pub struct SubtreeItem {
    pub file_id: u64,
    pub parent_id: u64,
    pub name: String,
    pub attrs: u32,
    pub size: u64,
    pub mtime: u64,
    pub ctime: u64,
    pub is_dir: bool,
}

pub open spec fn subtree_entry(w: SubtreeItem, fast: bool) -> RawEntryView {
    RawEntryView {
        file_id: w.file_id,
        file_id_128: None,
        parent_id: w.parent_id,
        name: w.name@,
        size: if fast {
            0
        } else {
            w.size
        },
        mtime: if fast {
            0
        } else {
            w.mtime
        },
        ctime: if fast {
            0
        } else {
            w.ctime
        },
        attrs: w.attrs,
        is_dir: w.is_dir,
    }
}

/// The items of a subtree that are not known yet, and what is known after them; an item without a
/// name is passed over.
pub open spec fn newcomers(known: Set<u64>, items: Seq<SubtreeItem>, fast: bool) -> (
    Set<u64>,
    Seq<RawEntryView>,
)
    decreases items.len(),
{
    if items.len() == 0 {
        (known, Seq::empty())
    } else {
        let before = newcomers(known, items.drop_last(), fast);
        let w = items.last();
        if w.name@.len() == 0 || before.0.contains(w.file_id) {
            before
        } else {
            (before.0.insert(w.file_id), before.1.push(subtree_entry(w, fast)))
        }
    }
}

/// The identifiers of a run of entries.
pub open spec fn ids_of(s: Seq<RawEntryView>) -> Set<u64>
    decreases s.len(),
{
    if s.len() == 0 {
        Set::empty()
    } else {
        ids_of(s.drop_last()).insert(s.last().file_id)
    }
}

fn add_ids(known: &mut HashSet<u64>, v: &Vec<RawEntry>)
    ensures
        final(known)@ == old(known)@.union(ids_of(crate::model::entries(v@))),
{
    let ghost vv = crate::model::entries(v@);
    let ghost start = known@;
    let mut i: usize = 0;
    proof {
        assert(vv.take(0) =~= Seq::empty());
        assert(start.union(ids_of(vv.take(0))) =~= start);
    }
    while i < v.len()
        invariant
            i <= v.len(),
            vv == crate::model::entries(v@),
            known@ == start.union(ids_of(vv.take(i as int))),
        decreases v.len() - i,
    {
        proof {
            assert(vv.take(i + 1).drop_last() =~= vv.take(i as int));
            assert(vv.take(i + 1).last() == v@[i as int]@);
        }
        known.insert(v[i].file_id);
        proof {
            assert(known@ =~= start.union(ids_of(vv.take(i + 1))));
        }
        i += 1;
    }
    proof {
        assert(vv.take(vv.len() as int) =~= vv);
    }
}

/// The identifiers of all entries that the scan holds.
pub fn known_ids(files: &Vec<RawEntry>, dirs: &Vec<RawEntry>) -> (r: HashSet<u64>)
    ensures
        r@ == ids_of(crate::model::entries(files@)).union(ids_of(crate::model::entries(dirs@))),
{
    let mut known: HashSet<u64> = HashSet::new();
    add_ids(&mut known, files);
    add_ids(&mut known, dirs);
    assert(known@ =~= ids_of(crate::model::entries(files@)).union(
        ids_of(crate::model::entries(dirs@)),
    ));
    known
}

/// Adds the items of one subtree that are not known yet; sizes and times are left out on a fast
/// scan.
pub fn supplement_reparse_subtrees(
    known: &mut HashSet<u64>,
    files: &mut Vec<RawEntry>,
    dirs: &mut Vec<RawEntry>,
    items: Vec<SubtreeItem>,
    fast: bool,
)
    ensures
        final(known)@ == newcomers(old(known)@, items@, fast).0,
        crate::model::entries(final(files)@) == crate::model::entries(old(files)@) + of_kind(
            newcomers(old(known)@, items@, fast).1,
            false,
        ),
        crate::model::entries(final(dirs)@) == crate::model::entries(old(dirs)@) + of_kind(
            newcomers(old(known)@, items@, fast).1,
            true,
        ),
{
    let ghost all = items@;
    let ghost known0 = known@;
    let ghost files0 = crate::model::entries(files@);
    let ghost dirs0 = crate::model::entries(dirs@);
    proof {
        assert(all.take(0) =~= Seq::empty());
        assert(files0 + of_kind(Seq::empty(), false) =~= files0);
        assert(dirs0 + of_kind(Seq::empty(), true) =~= dirs0);
    }
    for w in it: items
        invariant
            it.seq() == all,
            known@ == newcomers(known0, all.take(it.index() as int), fast).0,
            crate::model::entries(files@) == files0 + of_kind(
                newcomers(known0, all.take(it.index() as int), fast).1,
                false,
            ),
            crate::model::entries(dirs@) == dirs0 + of_kind(
                newcomers(known0, all.take(it.index() as int), fast).1,
                true,
            ),
    {
        let ghost got = newcomers(known0, all.take(it.index() as int), fast).1;
        proof {
            assert(all.take(it.index() + 1).drop_last() =~= all.take(it.index() as int));
            assert(all.take(it.index() + 1).last() == w);
        }
        if !w.name.as_str().is_empty() && !known.contains(&w.file_id) {
            known.insert(w.file_id);
            let ghost ev = subtree_entry(w, fast);
            let entry = RawEntry {
                file_id: w.file_id,
                file_id_128: None,
                parent_id: w.parent_id,
                name: w.name,
                size: if fast {
                    0
                } else {
                    w.size
                },
                mtime: if fast {
                    0
                } else {
                    w.mtime
                },
                ctime: if fast {
                    0
                } else {
                    w.ctime
                },
                attrs: w.attrs,
                is_dir: w.is_dir,
            };
            proof {
                assert(entry@ == ev);
                lemma_of_kind_push(got, ev, true);
                lemma_of_kind_push(got, ev, false);
            }
            let ghost fv = crate::model::entries(files@);
            let ghost dv = crate::model::entries(dirs@);
            if w.is_dir {
                dirs.push(entry);
                proof {
                    assert(crate::model::entries(dirs@) =~= dv.push(ev));
                    assert(dv.push(ev) =~= dirs0 + of_kind(got.push(ev), true));
                }
            } else {
                files.push(entry);
                proof {
                    assert(crate::model::entries(files@) =~= fv.push(ev));
                    assert(fv.push(ev) =~= files0 + of_kind(got.push(ev), false));
                }
            }
        }
    }
    proof {
        assert(all.take(all.len() as int) =~= all);
    }
}

/// No identifier that was known is added again, and none is added twice.
pub proof fn law_newcomers_are_new(known: Set<u64>, items: Seq<SubtreeItem>, fast: bool)
    ensures
        forall|i: int|
            0 <= i < newcomers(known, items, fast).1.len() ==> !known.contains(
                (#[trigger] newcomers(known, items, fast).1[i]).file_id,
            ),
        forall|i: int, j: int|
            0 <= i < j < newcomers(known, items, fast).1.len() ==> (#[trigger] newcomers(
                known,
                items,
                fast,
            ).1[i]).file_id != (#[trigger] newcomers(known, items, fast).1[j]).file_id,
    decreases items.len(),
{
    lemma_newcomers_known(known, items, fast);
    if items.len() > 0 {
        law_newcomers_are_new(known, items.drop_last(), fast);
        lemma_newcomers_known(known, items.drop_last(), fast);
    }
}

proof fn lemma_newcomers_known(known: Set<u64>, items: Seq<SubtreeItem>, fast: bool)
    ensures
        known.subset_of(newcomers(known, items, fast).0),
        forall|i: int|
            0 <= i < newcomers(known, items, fast).1.len() ==> newcomers(
                known,
                items,
                fast,
            ).0.contains((#[trigger] newcomers(known, items, fast).1[i]).file_id),
    decreases items.len(),
{
    if items.len() > 0 {
        lemma_newcomers_known(known, items.drop_last(), fast);
    }
}

/// The last record of a listing that speaks of this file.
pub open spec fn last_listed(meta: Seq<DirMetaRec>, file: u64, k: int) -> bool {
    &&& 0 <= k < meta.len()
    &&& meta[k].0 == file
    &&& forall|j: int| k < j < meta.len() ==> (#[trigger] meta[j]).0 != file
}

/// No record of the listing speaks of this file.
pub open spec fn not_listed(meta: Seq<DirMetaRec>, file: u64) -> bool {
    forall|j: int| 0 <= j < meta.len() ==> (#[trigger] meta[j]).0 != file
}

proof fn lemma_meta_table(meta: Seq<DirMetaRec>, file: u64, k: int)
    ensures
        not_listed(meta, file) ==> !meta_table(meta).contains_key(file),
        last_listed(meta, file, k) ==> meta_table(meta).contains_key(file) && meta_table(
            meta,
        )[file] == (meta[k].1, meta[k].2, meta[k].3),
    decreases meta.len(),
{
    if meta.len() > 0 {
        let t = meta.drop_last();
        lemma_meta_table(t, file, k);
        assert(meta.last() == meta[meta.len() - 1]);
        if not_listed(meta, file) {
            assert forall|j: int| 0 <= j < t.len() implies (#[trigger] t[j]).0 != file by {
                assert(t[j] == meta[j]);
            }
        }
        if last_listed(meta, file, k) && k < t.len() {
            assert forall|j: int| k < j < t.len() implies (#[trigger] t[j]).0 != file by {
                assert(t[j] == meta[j]);
            }
        }
    }
}

/// A file gets the size, the time of its last change and that of its creation from the last record
/// that the directory listings hold of it; one that they do not mention stays as it is.
pub proof fn law_listed_sizes_are_taken_over(e: RawEntryView, meta: Seq<DirMetaRec>, k: int)
    ensures
        last_listed(meta, e.file_id, k) ==> with_meta(e, meta_table(meta)) == (RawEntryView {
            size: meta[k].1,
            mtime: meta[k].2,
            ctime: meta[k].3,
            ..e
        }),
        not_listed(meta, e.file_id) ==> with_meta(e, meta_table(meta)) == e,
{
    lemma_meta_table(meta, e.file_id, k);
}

/// The files that no listing mentions, and only those, are left to be opened one by one.
pub proof fn law_unlisted_files_are_left(
    files: Seq<RawEntryView>,
    meta: Seq<DirMetaRec>,
    n: int,
    i: usize,
)
    requires
        0 <= n <= files.len(),
        n <= usize::MAX,
    ensures
        missing(files, meta_table(meta), n).contains(i) <==> i < n && not_listed(
            meta,
            files[i as int].file_id,
        ),
    decreases n,
{
    if n > 0 {
        law_unlisted_files_are_left(files, meta, n - 1, i);
        let rest = missing(files, meta_table(meta), n - 1);
        let all = missing(files, meta_table(meta), n);
        let f = files[n - 1].file_id;
        lemma_meta_table(meta, f, 0);
        lemma_listed_or_not(meta, f);
        if rest.contains(i) {
            let k = choose|k: int| 0 <= k < rest.len() && rest[k] == i;
            assert(all[k] == i);
        }
        if all.contains(i) {
            let k = choose|k: int| 0 <= k < all.len() && all[k] == i;
            if k < rest.len() {
                assert(rest[k] == i);
            }
        }
        if i == n - 1 && all.len() > rest.len() {
            assert(all[rest.len() as int] == i);
        }
    }
}

proof fn lemma_listed_or_not(meta: Seq<DirMetaRec>, file: u64)
    ensures
        not_listed(meta, file) <==> !meta_table(meta).contains_key(file),
    decreases meta.len(),
{
    lemma_meta_table(meta, file, 0);
    if meta.len() > 0 {
        let t = meta.drop_last();
        lemma_listed_or_not(t, file);
        assert(meta.last() == meta[meta.len() - 1]);
        if !not_listed(t, file) {
            let j = choose|j: int| 0 <= j < t.len() && (#[trigger] t[j]).0 == file;
            assert(meta[j].0 == file);
        }
        if !not_listed(meta, file) {
            let j = choose|j: int| 0 <= j < meta.len() && (#[trigger] meta[j]).0 == file;
            if j < t.len() {
                assert(t[j].0 == file);
            }
        }
    }
}

/// A file that was opened gets the size and times of the last update for its place; the others, and
/// all else, stay as they are.
pub proof fn law_updates_reach_their_place(
    files: Seq<RawEntryView>,
    updates: Seq<MetaUpdate>,
    i: int,
    k: int,
)
    requires
        0 <= i < files.len(),
    ensures
        updated(files, updates).len() == files.len(),
        (forall|j: int| 0 <= j < updates.len() ==> (#[trigger] updates[j]).0 != i) ==> updated(
            files,
            updates,
        )[i] == files[i],
        0 <= k < updates.len() && updates[k].0 == i && (forall|j: int|
            k < j < updates.len() ==> (#[trigger] updates[j]).0 != i) ==> updated(files, updates)[i]
            == (RawEntryView {
            size: updates[k].1,
            mtime: updates[k].2,
            ctime: updates[k].3,
            ..files[i]
        }),
    decreases updates.len(),
{
    if updates.len() > 0 {
        let t = updates.drop_last();
        assert(updates.last() == updates[updates.len() - 1]);
        law_updates_reach_their_place(files, t, i, k);
        lemma_only_meta_changes(files, t, i);
        assert(forall|j: int| 0 <= j < t.len() ==> #[trigger] t[j] == updates[j]);
        if forall|j: int| 0 <= j < updates.len() ==> (#[trigger] updates[j]).0 != i {
            assert forall|j: int| 0 <= j < t.len() implies (#[trigger] t[j]).0 != i by {
                assert(t[j] == updates[j]);
            }
        }
        if 0 <= k < t.len() && (forall|j: int| k < j < updates.len() ==> (#[trigger] updates[j]).0 != i) {
            assert forall|j: int| k < j < t.len() implies (#[trigger] t[j]).0 != i by {
                assert(t[j] == updates[j]);
            }
        }
    }
}

proof fn lemma_only_meta_changes(files: Seq<RawEntryView>, updates: Seq<MetaUpdate>, i: int)
    requires
        0 <= i < files.len(),
    ensures
        updated(files, updates).len() == files.len(),
        updated(files, updates)[i] == (RawEntryView {
            size: updated(files, updates)[i].size,
            mtime: updated(files, updates)[i].mtime,
            ctime: updated(files, updates)[i].ctime,
            ..files[i]
        }),
    decreases updates.len(),
{
    if updates.len() > 0 {
        lemma_only_meta_changes(files, updates.drop_last(), i);
    }
}

/// The entry says what the walk found: the number, the parent where it is known, the name, the kind
/// and the size; times are not known.
pub open spec fn entry_of_walk(e: RawEntryView, w: WalkedItem) -> bool {
    &&& w.file_id == Some(e.file_id)
    &&& w.parent_id matches Some(p) ==> e.parent_id == p
    &&& w.parent_id is None ==> e.parent_id == 0
    &&& e.name == w.name@
    &&& w.size matches Ok(n) && e.size == n
    &&& e.is_dir == w.is_dir
    &&& e.attrs == (if w.is_dir {
        0x10u32
    } else {
        0
    })
    &&& e.mtime == 0 && e.ctime == 0
    &&& e.file_id_128 is None
}

/// The items of a walk that have a name and a number.
pub open spec fn named_and_numbered() -> spec_fn(WalkedItem) -> bool {
    |w: WalkedItem| w.name@.len() > 0 && w.file_id is Some
}

/// A walk gives one entry for each item that has a name and a number, in order, with what was found
/// of it; it fails exactly where the size of such an item could not be read.
pub proof fn law_walk_keeps_what_it_found(items: Seq<WalkedItem>, i: int)
    requires
        0 <= i < items.len(),
    ensures
        (walked(items) is Err) <==> exists|j: int|
            0 <= j < items.len() && named_and_numbered()(#[trigger] items[j]) && items[j].size is Err,
        walked(items) matches Ok(s) ==> s.len() == items.filter(named_and_numbered()).len() && (
        named_and_numbered()(items[i]) ==> items.take(i).filter(named_and_numbered()).len() < s.len()
            && entry_of_walk(
            s[items.take(i).filter(named_and_numbered()).len() as int],
            items[i],
        )),
    decreases items.len(),
{
    let p = named_and_numbered();
    let t = items.drop_last();
    let w = items.last();
    assert(t.push(w) =~= items);
    assert(items[items.len() - 1] == w);
    crate::lists::lemma_filter_push(t, w, p);
    if t.len() > 0 {
        law_walk_keeps_what_it_found(t, if i < t.len() {
            i
        } else {
            0
        });
    } else {
        assert(t =~= Seq::empty());
        crate::lists::lemma_filter_one(w, p);
    }
    if walked(t) is Err {
        let j = choose|j: int| 0 <= j < t.len() && p(#[trigger] t[j]) && t[j].size is Err;
        assert(items[j] == t[j]);
    }
    if walked(items) is Ok {
        assert forall|j: int| 0 <= j < items.len() && p(#[trigger] items[j]) implies items[j].size is Ok by {
            if j < t.len() {
                assert(t[j] == items[j]);
            }
        }
    }
    if i < t.len() {
        assert(t.take(i) =~= items.take(i));
        assert(t[i] == items[i]);
    } else {
        assert(items.take(i) =~= t);
    }
}

/// An item below a reparse directory becomes an entry with its number, parent, name, attributes and
/// kind, and with its size and times unless the scan is a fast one.
pub proof fn law_subtree_entry(w: SubtreeItem, fast: bool)
    ensures
        ({
            let e = subtree_entry(w, fast);
            &&& (e.file_id, e.parent_id, e.attrs, e.is_dir) == (w.file_id, w.parent_id, w.attrs, w.is_dir)
            &&& e.name == w.name@
            &&& e.file_id_128 is None
            &&& !fast ==> (e.size, e.mtime, e.ctime) == (w.size, w.mtime, w.ctime)
            &&& fast ==> (e.size, e.mtime, e.ctime) == (0u64, 0u64, 0u64)
        }),
{
}

/// An item with a name and a number that is not known yet is entered, and no known number and no
/// nameless item is.
pub proof fn law_unknown_items_are_entered(
    known: Set<u64>,
    items: Seq<SubtreeItem>,
    fast: bool,
    f: u64,
)
    ensures
        newcomers(known, items, fast).0.contains(f) <==> known.contains(f) || exists|i: int|
            0 <= i < items.len() && (#[trigger] items[i]).name@.len() > 0 && items[i].file_id == f,
        (exists|k: int|
            0 <= k < newcomers(known, items, fast).1.len() && (#[trigger] newcomers(
                known,
                items,
                fast,
            ).1[k]).file_id == f) <==> !known.contains(f) && newcomers(known, items, fast).0.contains(
            f,
        ),
    decreases items.len(),
{
    let all = newcomers(known, items, fast);
    if items.len() > 0 {
        let t = items.drop_last();
        let w = items.last();
        assert(w == items[items.len() - 1]);
        law_unknown_items_are_entered(known, t, fast, f);
        lemma_newcomers_known(known, t, fast);
        let before = newcomers(known, t, fast);
        if exists|i: int| 0 <= i < t.len() && (#[trigger] t[i]).name@.len() > 0 && t[i].file_id == f {
            let i = choose|i: int|
                0 <= i < t.len() && (#[trigger] t[i]).name@.len() > 0 && t[i].file_id == f;
            assert(items[i] == t[i]);
        }
        if exists|i: int|
            0 <= i < items.len() && (#[trigger] items[i]).name@.len() > 0 && items[i].file_id == f {
            let i = choose|i: int|
                0 <= i < items.len() && (#[trigger] items[i]).name@.len() > 0 && items[i].file_id
                    == f;
            if i < t.len() {
                assert(t[i] == items[i]);
            }
        }
        if exists|k: int| 0 <= k < before.1.len() && (#[trigger] before.1[k]).file_id == f {
            let k = choose|k: int| 0 <= k < before.1.len() && (#[trigger] before.1[k]).file_id == f;
            assert(all.1[k].file_id == f);
        }
        if exists|k: int| 0 <= k < all.1.len() && (#[trigger] all.1[k]).file_id == f {
            let k = choose|k: int| 0 <= k < all.1.len() && (#[trigger] all.1[k]).file_id == f;
            if k < before.1.len() {
                assert(before.1[k].file_id == f);
            }
        }
        if all.1.len() > before.1.len() {
            assert(all.1[before.1.len() as int].file_id == w.file_id);
        }
    } else {
        assert(!exists|k: int| 0 <= k < all.1.len() && (#[trigger] all.1[k]).file_id == f);
    }
}

/// The directories whose listings are read are those that hold a file, each under its own number
/// and identifier.
pub proof fn law_listed_directories(
    files: Seq<RawEntryView>,
    dirs: Seq<RawEntryView>,
    d: (u64, Option<Seq<u8>>),
)
    ensures
        dirs_with_files(files, dirs).contains(d) <==> exists|i: int, j: int|
            0 <= i < dirs.len() && 0 <= j < files.len() && d == ((#[trigger] dirs[i]).file_id, dirs[i].file_id_128)
                && (#[trigger] files[j]).parent_id == dirs[i].file_id,
    decreases dirs.len(),
{
    let all = dirs_with_files(files, dirs);
    if dirs.len() > 0 {
        let t = dirs.drop_last();
        let x = dirs.last();
        assert(x == dirs[dirs.len() - 1]);
        let rest = dirs_with_files(files, t);
        law_listed_directories(files, t, d);
        if all.contains(d) {
            let k = choose|k: int| 0 <= k < all.len() && all[k] == d;
            if k < rest.len() {
                assert(rest[k] == d);
                let (i, j) = choose|i: int, j: int|
                    0 <= i < t.len() && 0 <= j < files.len() && d == ((#[trigger] t[i]).file_id, t[i].file_id_128)
                        && (#[trigger] files[j]).parent_id == t[i].file_id;
                assert(dirs[i] == t[i]);
            } else {
                let j = choose|j: int| 0 <= j < files.len() && (#[trigger] files[j]).parent_id == x.file_id;
                assert(dirs[dirs.len() - 1].file_id == files[j].parent_id);
            }
        }
        if exists|i: int, j: int|
            0 <= i < dirs.len() && 0 <= j < files.len() && d == ((#[trigger] dirs[i]).file_id, dirs[i].file_id_128)
                && (#[trigger] files[j]).parent_id == dirs[i].file_id {
            let (i, j) = choose|i: int, j: int|
                0 <= i < dirs.len() && 0 <= j < files.len() && d == ((#[trigger] dirs[i]).file_id, dirs[i].file_id_128)
                    && (#[trigger] files[j]).parent_id == dirs[i].file_id;
            if i < t.len() {
                assert(t[i] == dirs[i]);
                let k = choose|k: int| 0 <= k < rest.len() && rest[k] == d;
                assert(all[k] == d);
            } else {
                assert(has_file(files, x.file_id));
                assert(all[rest.len() as int] == d);
            }
        }
    }
}

/// The directories behind reparse points, and no others, are walked once more.
pub proof fn law_reparse_directories(dirs: Seq<RawEntryView>, d: (u64, Option<Seq<u8>>))
    ensures
        reparse_of(dirs).contains(d) <==> exists|i: int|
            0 <= i < dirs.len() && d == ((#[trigger] dirs[i]).file_id, dirs[i].file_id_128)
                && dirs[i].attrs & 0x400 != 0,
    decreases dirs.len(),
{
    let all = reparse_of(dirs);
    if dirs.len() > 0 {
        let t = dirs.drop_last();
        let x = dirs.last();
        assert(x == dirs[dirs.len() - 1]);
        let rest = reparse_of(t);
        law_reparse_directories(t, d);
        if all.contains(d) {
            let k = choose|k: int| 0 <= k < all.len() && all[k] == d;
            if k < rest.len() {
                assert(rest[k] == d);
                let i = choose|i: int|
                    0 <= i < t.len() && d == ((#[trigger] t[i]).file_id, t[i].file_id_128) && t[i].attrs
                        & 0x400 != 0;
                assert(dirs[i] == t[i]);
            }
        }
        if exists|i: int|
            0 <= i < dirs.len() && d == ((#[trigger] dirs[i]).file_id, dirs[i].file_id_128)
                && dirs[i].attrs & 0x400 != 0 {
            let i = choose|i: int|
                0 <= i < dirs.len() && d == ((#[trigger] dirs[i]).file_id, dirs[i].file_id_128)
                    && dirs[i].attrs & 0x400 != 0;
            if i < t.len() {
                assert(t[i] == dirs[i]);
                let k = choose|k: int| 0 <= k < rest.len() && rest[k] == d;
                assert(all[k] == d);
            } else {
                assert(all[rest.len() as int] == d);
            }
        }
    }
}

/// A scanner of one volume.
pub struct MftScanner;

impl MftScanner {
    /// The files of a scan followed by its directories.
    pub fn scan(&self, files: Vec<RawEntry>, dirs: Vec<RawEntry>) -> (r: Vec<RawEntry>)
        ensures
            r@ == files@ + dirs@,
    {
        let mut out = files;
        let mut rest = dirs;
        out.append(&mut rest);
        out
    }
}

/// A path lies on a drive where it begins with its letter, small or capital, and a colon, and says
/// more than these two.
pub proof fn law_paths_on_a_drive(c: char, rest: Seq<char>, letter: char)
    requires
        'A' <= letter && letter <= 'Z',
    ensures
        below_drive(seq![c, ':'] + rest, letter) <==> rest.len() > 0 && (c == letter || c as int
            == letter as int + 32),
{
    let p = seq![c, ':'] + rest;
    assert(p[0] == c && p[1] == ':');
}

/// The file numbers of entries are those that some entry has.
pub proof fn law_numbers_of_entries(s: Seq<RawEntryView>, f: u64)
    ensures
        ids_of(s).contains(f) <==> exists|i: int| 0 <= i < s.len() && (#[trigger] s[i]).file_id == f,
    decreases s.len(),
{
    if s.len() > 0 {
        let t = s.drop_last();
        law_numbers_of_entries(t, f);
        assert(s[s.len() - 1] == s.last());
        if exists|i: int| 0 <= i < t.len() && (#[trigger] t[i]).file_id == f {
            let i = choose|i: int| 0 <= i < t.len() && (#[trigger] t[i]).file_id == f;
            assert(s[i].file_id == f);
        }
        if exists|i: int| 0 <= i < s.len() && (#[trigger] s[i]).file_id == f {
            let i = choose|i: int| 0 <= i < s.len() && (#[trigger] s[i]).file_id == f;
            if i < t.len() {
                assert(t[i].file_id == f);
            }
        }
    }
}

/// The mark of a literal path is taken off, except before the path of a share.
pub proof fn law_mark_of_a_literal_path(rest: Seq<char>)
    ensures
        ({
            let p = seq!['\\', '\\', '?', '\\'] + rest;
            &&& rest.len() >= 4 && rest.take(4) == seq!['U', 'N', 'C', '\\'] ==> plain_path(p) == p
            &&& rest.len() < 4 || rest.take(4) != seq!['U', 'N', 'C', '\\'] ==> plain_path(p) == rest
        }),
        rest.len() < 4 || rest.take(4) != seq!['\\', '\\', '?', '\\'] ==> plain_path(rest) == rest,
{
    reveal_strlit("\\\\?\\");
    reveal_strlit("UNC\\");
    assert("\\\\?\\"@ =~= seq!['\\', '\\', '?', '\\']);
    assert("UNC\\"@ =~= seq!['U', 'N', 'C', '\\']);
    let p = seq!['\\', '\\', '?', '\\'] + rest;
    assert(p.take(4) =~= seq!['\\', '\\', '?', '\\']);
    assert(p.skip(4) =~= rest);
}

/// A walk ends in what it found, parted into files and directories; a fast one says no size of a
/// file. A walk that found nothing, or could not ask about a file, fails.
pub proof fn law_end_of_a_walk(items: Seq<WalkedItem>, fast: bool)
    ensures
        walked(items) is Err ==> walk_outcome(items, fast) == Err::<
            (Seq<RawEntryView>, Seq<RawEntryView>),
            ErrorView,
        >(ErrorView::Platform("元数据: "@ + walked(items)->Err_0)),
        walked(items) matches Ok(s) ==> {
            &&& s.len() == 0 ==> walk_outcome(items, fast) is Err
            &&& s.len() > 0 ==> walk_outcome(items, fast) is Ok
            &&& walk_outcome(items, fast) matches Ok((files, dirs)) ==> {
                &&& dirs == s.filter(|e: RawEntryView| e.is_dir)
                &&& !fast ==> files == s.filter(|e: RawEntryView| !e.is_dir)
                &&& files.len() == s.filter(|e: RawEntryView| !e.is_dir).len()
                &&& fast ==> forall|i: int|
                    0 <= i < files.len() ==> {
                        let e = s.filter(|e: RawEntryView| !e.is_dir)[i];
                        &&& (#[trigger] files[i]).size == 0
                        &&& files[i].file_id == e.file_id && files[i].file_id_128 == e.file_id_128
                        &&& files[i].parent_id == e.parent_id && files[i].name == e.name
                        &&& files[i].mtime == e.mtime && files[i].ctime == e.ctime
                        &&& files[i].attrs == e.attrs && files[i].is_dir == e.is_dir
                    }
            }
        },
{
    if let Ok(s) = walked(items) {
        lemma_of_kind(s, true);
        lemma_of_kind(s, false);
        assert((|e: RawEntryView| e.is_dir == true) =~= (|e: RawEntryView| e.is_dir));
        assert((|e: RawEntryView| e.is_dir == false) =~= (|e: RawEntryView| !e.is_dir));
    }
}

proof fn lemma_of_kind(s: Seq<RawEntryView>, dirs: bool)
    ensures
        of_kind(s, dirs) == s.filter(|e: RawEntryView| e.is_dir == dirs),
    decreases s.len(),
{
    let p = |e: RawEntryView| e.is_dir == dirs;
    if s.len() == 0 {
        reveal(Seq::filter);
        assert(of_kind(s, dirs) =~= s.filter(p));
    } else {
        let t = s.drop_first();
        lemma_of_kind(t, dirs);
        crate::lists::lemma_filter_one(s[0], p);
        assert(seq![s[0]] + t =~= s);
        Seq::filter_distributes_over_add(seq![s[0]], t, p);
        assert(of_kind(s, dirs) =~= s.filter(p));
    }
}

} // verus!
