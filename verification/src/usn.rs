//! The NTFS change journal: record layout, read batches, merging of the records of one file, and
//! the messages that a watcher hands on.
use vstd::prelude::*;
use std::collections::HashMap;
use crate::bytes;
use crate::model::{ChangeEvent, ChangeEventView, Error, ErrorView};
use crate::text;
use crate::utf16;

verus! {

broadcast use vstd::std_specs::hash::group_hash_axioms;

pub const REASON_DATA_EXTEND: u32 = 0x2;
pub const REASON_DATA_TRUNCATION: u32 = 0x4;
pub const REASON_FILE_CREATE: u32 = 0x100;
pub const REASON_FILE_DELETE: u32 = 0x200;
pub const REASON_RENAME_OLD_NAME: u32 = 0x1000;
pub const REASON_RENAME_NEW_NAME: u32 = 0x2000;
pub const REASON_BASIC_INFO_CHANGE: u32 = 0x8000;
pub const ATTRIBUTE_DIRECTORY: u32 = 0x10;

/// Where a saved index left off in the journal.
#[derive(Debug, Clone, Copy)]
pub struct UsnResume {
    pub journal_id: u64,
    /// The position after the last batch that was read.
    pub start_usn: u64,
}

/// The state of a volume's journal.
#[derive(Debug, Clone, Copy)]
pub struct UsnState {
    pub journal_id: u64,
    pub next_usn: u64,
    pub first_usn: i64,
}

/// A watcher of one volume.
pub struct UsnJournalWatcher {
    pub volume_path: String,
}

impl UsnJournalWatcher {
    pub fn new(volume_path: String) -> (r: Self)
        ensures
            r.volume_path@ == volume_path@,
    {
        UsnJournalWatcher { volume_path }
    }
}

/// What a watcher sends on.
#[derive(Debug)]
pub enum UsnWatchMsg {
    Event(ChangeEvent),
    /// Size and times of the file should be read again, off the watching thread.
    StatRefresh { file_id: u64, file_id_128: Option<[u8; 16]> },
    /// The journal has been read up to here.
    Checkpoint { journal_id: u64, next_usn: u64 },
}

pub enum UsnWatchMsgView {
    Event(ChangeEventView),
    StatRefresh { file_id: u64, file_id_128: Option<Seq<u8>> },
    Checkpoint { journal_id: u64, next_usn: u64 },
}

impl View for UsnWatchMsg {
    type V = UsnWatchMsgView;

    open spec fn view(&self) -> UsnWatchMsgView {
        match *self {
            UsnWatchMsg::Event(e) => UsnWatchMsgView::Event(e@),
            UsnWatchMsg::StatRefresh { file_id, file_id_128 } => UsnWatchMsgView::StatRefresh {
                file_id,
                file_id_128: crate::model::id_bytes(file_id_128),
            },
            UsnWatchMsg::Checkpoint { journal_id, next_usn } => UsnWatchMsgView::Checkpoint {
                journal_id,
                next_usn,
            },
        }
    }
}

pub open spec fn messages(v: Seq<UsnWatchMsg>) -> Seq<UsnWatchMsgView> {
    v.map_values(|m: UsnWatchMsg| m@)
}

// ---- records ------------------------------------------------------------------------------

/// The byte offsets of a record version.
pub struct RecordLayout {
    pub min_len: int,
    pub parent: int,
    pub timestamp: int,
    pub reason: int,
    pub attrs: int,
    pub name_len: int,
    pub name_off: int,
    /// The identifier at offset 8 is 128 bits wide.
    pub wide_id: bool,
}

/// The layouts of the two record versions that are read.
pub open spec fn layout(major: u16) -> Option<RecordLayout> {
    if major == 2 {
        Some(
            RecordLayout {
                min_len: 60,
                parent: 16,
                timestamp: 32,
                reason: 40,
                attrs: 52,
                name_len: 56,
                name_off: 58,
                wide_id: false,
            },
        )
    } else if major == 3 {
        Some(
            RecordLayout {
                min_len: 76,
                parent: 24,
                timestamp: 48,
                reason: 56,
                attrs: 68,
                name_len: 72,
                name_off: 74,
                wide_id: true,
            },
        )
    } else {
        None
    }
}

/// The fixed fields of one journal record.
#[derive(Debug, Clone, Copy)]
pub struct UsnRecord {
    pub file_ref: u64,
    pub parent_ref: u64,
    pub timestamp: u64,
    pub reason: u32,
    pub attrs: u32,
    pub name_len: usize,
    pub name_off: usize,
    pub file_id_128: Option<[u8; 16]>,
}

pub struct UsnRecordView {
    pub file_ref: u64,
    pub parent_ref: u64,
    pub timestamp: u64,
    pub reason: u32,
    pub attrs: u32,
    pub name_len: int,
    pub name_off: int,
    pub file_id_128: Option<Seq<u8>>,
}

impl View for UsnRecord {
    type V = UsnRecordView;

    open spec fn view(&self) -> UsnRecordView {
        UsnRecordView {
            file_ref: self.file_ref,
            parent_ref: self.parent_ref,
            timestamp: self.timestamp,
            reason: self.reason,
            attrs: self.attrs,
            name_len: self.name_len as int,
            name_off: self.name_off as int,
            file_id_128: crate::model::id_bytes(self.file_id_128),
        }
    }
}

/// The fields of a record, where its version is known and its fixed part is there.
pub open spec fn read_record(rec: Seq<u8>) -> Option<UsnRecordView> {
    if rec.len() < 8 {
        None
    } else {
        match layout(bytes::u16_at(rec, 4)) {
            None => None,
            Some(l) => if rec.len() < l.min_len {
                None
            } else {
                Some(
                    UsnRecordView {
                        file_ref: bytes::u64_at(rec, 8),
                        parent_ref: bytes::u64_at(rec, l.parent),
                        timestamp: bytes::u64_at(rec, l.timestamp),
                        reason: bytes::u32_at(rec, l.reason),
                        attrs: bytes::u32_at(rec, l.attrs),
                        name_len: bytes::u16_at(rec, l.name_len) as int,
                        name_off: bytes::u16_at(rec, l.name_off) as int,
                        file_id_128: if l.wide_id {
                            Some(rec.subrange(8, 24))
                        } else {
                            None
                        },
                    },
                )
            },
        }
    }
}

/// The fields of an enumerated record, which must also state its own length.
pub open spec fn enum_record(rec: Seq<u8>) -> Option<UsnRecordView> {
    if rec.len() < 8 || bytes::u32_at(rec, 0) != rec.len() {
        None
    } else {
        read_record(rec)
    }
}

pub open spec fn opt_record(r: Option<UsnRecord>) -> Option<UsnRecordView> {
    match r {
        Some(x) => Some(x@),
        None => None,
    }
}

fn id_at(rec: &[u8]) -> (r: [u8; 16])
    requires
        rec@.len() >= 24,
    ensures
        r@ == rec@.subrange(8, 24),
{
    let r = [
        rec[8],
        rec[9],
        rec[10],
        rec[11],
        rec[12],
        rec[13],
        rec[14],
        rec[15],
        rec[16],
        rec[17],
        rec[18],
        rec[19],
        rec[20],
        rec[21],
        rec[22],
        rec[23],
    ];
    assert(r@ =~= rec@.subrange(8, 24));
    r
}

/// Reads the fixed fields of one record of a journal read.
pub fn parse_read_usn_record(rec: &[u8]) -> (r: Option<UsnRecord>)
    ensures
        opt_record(r) == read_record(rec@),
{
    if rec.len() < 8 {
        return None;
    }
    let major: u16 = bytes::read_u16(rec, 4);
    if major == 2 {
        if rec.len() < 60 {
            return None;
        }
        Some(
            UsnRecord {
                file_ref: bytes::read_u64(rec, 8),
                parent_ref: bytes::read_u64(rec, 16),
                timestamp: bytes::read_u64(rec, 32),
                reason: bytes::read_u32(rec, 40),
                attrs: bytes::read_u32(rec, 52),
                name_len: bytes::read_u16(rec, 56) as usize,
                name_off: bytes::read_u16(rec, 58) as usize,
                file_id_128: None,
            },
        )
    } else if major == 3 {
        if rec.len() < 76 {
            return None;
        }
        Some(
            UsnRecord {
                file_ref: bytes::read_u64(rec, 8),
                parent_ref: bytes::read_u64(rec, 24),
                timestamp: bytes::read_u64(rec, 48),
                reason: bytes::read_u32(rec, 56),
                attrs: bytes::read_u32(rec, 68),
                name_len: bytes::read_u16(rec, 72) as usize,
                name_off: bytes::read_u16(rec, 74) as usize,
                file_id_128: Some(id_at(rec)),
            },
        )
    } else {
        None
    }
}

/// Reads the fixed fields of one record of a file table enumeration.
pub fn parse_enum_usn_record(rec: &[u8]) -> (r: Option<UsnRecord>)
    ensures
        opt_record(r) == enum_record(rec@),
{
    if rec.len() < 8 {
        return None;
    }
    let record_len: u32 = bytes::read_u32(rec, 0);
    if record_len as u64 != rec.len() as u64 {
        return None;
    }
    parse_read_usn_record(rec)
}

/// The records of a buffer from offset `off` on: each states its length in its first four bytes;
/// the run ends where fewer than eight bytes are left or a length does not fit.
pub open spec fn record_slices(buf: Seq<u8>, off: int) -> Seq<Seq<u8>>
    decreases buf.len() - off,
{
    if off < 0 || off + 8 > buf.len() {
        Seq::empty()
    } else {
        let n = bytes::u32_at(buf, off) as int;
        if n < 8 || off + n > buf.len() {
            Seq::empty()
        } else {
            seq![buf.subrange(off, off + n)] + record_slices(buf, off + n)
        }
    }
}

/// A copy of the bytes `from..to`.
pub fn slice_between(b: &[u8], from: usize, to: usize) -> (r: Vec<u8>)
    requires
        from <= to <= b@.len(),
    ensures
        r@ == b@.subrange(from as int, to as int),
{
    let mut out: Vec<u8> = Vec::new();
    let mut i: usize = from;
    while i < to
        invariant
            from <= i <= to <= b@.len(),
            out@ == b@.subrange(from as int, i as int),
        decreases to - i,
    {
        out.push(b[i]);
        proof {
            assert(out@ =~= b@.subrange(from as int, i + 1));
        }
        i += 1;
    }
    out
}

// ---- records of a watcher -----------------------------------------------------------------

/// A journal record with its name, ready to be merged with others of the same file.
#[derive(Debug)]
pub struct ParsedWatchRec {
    pub file_ref: u64,
    pub parent_ref: u64,
    pub reason: u32,
    pub attrs: u32,
    pub name: String,
    pub is_dir: bool,
    pub file_id_128: Option<[u8; 16]>,
}

pub struct WatchRecView {
    pub file_ref: u64,
    pub parent_ref: u64,
    pub reason: u32,
    pub attrs: u32,
    pub name: Seq<char>,
    pub is_dir: bool,
    pub file_id_128: Option<Seq<u8>>,
}

impl View for ParsedWatchRec {
    type V = WatchRecView;

    open spec fn view(&self) -> WatchRecView {
        WatchRecView {
            file_ref: self.file_ref,
            parent_ref: self.parent_ref,
            reason: self.reason,
            attrs: self.attrs,
            name: self.name@,
            is_dir: self.is_dir,
            file_id_128: crate::model::id_bytes(self.file_id_128),
        }
    }
}

pub open spec fn watch_recs(v: Seq<ParsedWatchRec>) -> Seq<WatchRecView> {
    v.map_values(|r: ParsedWatchRec| r@)
}

/// The name held by a record, where it lies inside the record.
pub open spec fn record_name(rec: Seq<u8>, f: UsnRecordView) -> Option<Seq<char>> {
    if f.name_off + f.name_len > rec.len() {
        None
    } else {
        Some(utf16::decoded(utf16::le_units(rec.subrange(f.name_off, f.name_off + f.name_len))))
    }
}

/// The attributes are those of a directory.
pub open spec fn directory(attrs: u32) -> bool {
    attrs & ATTRIBUTE_DIRECTORY != 0
}

/// A record as the watcher reads it; nothing where the record or its name is unreadable.
pub open spec fn watch_rec(rec: Seq<u8>) -> Option<WatchRecView> {
    match read_record(rec) {
        None => None,
        Some(f) => match record_name(rec, f) {
            None => None,
            Some(name) => Some(
                WatchRecView {
                    file_ref: f.file_ref,
                    parent_ref: f.parent_ref,
                    reason: f.reason,
                    attrs: f.attrs,
                    name,
                    is_dir: directory(f.attrs),
                    file_id_128: f.file_id_128,
                },
            ),
        },
    }
}

/// The readable records of a run, in order.
pub open spec fn readable(recs: Seq<Seq<u8>>) -> Seq<WatchRecView>
    decreases recs.len(),
{
    if recs.len() == 0 {
        Seq::empty()
    } else {
        let rest = readable(recs.drop_first());
        match watch_rec(recs[0]) {
            Some(r) => seq![r] + rest,
            None => rest,
        }
    }
}

fn parse_watch_rec(rec: &[u8]) -> (r: Option<ParsedWatchRec>)
    ensures
        r matches Some(x) ==> watch_rec(rec@) == Some(x@),
        r is None ==> watch_rec(rec@) is None,
{
    match parse_read_usn_record(rec) {
        None => None,
        Some(f) => {
            if f.name_off + f.name_len > rec.len() {
                return None;
            }
            let name_bytes = slice_between(rec, f.name_off, f.name_off + f.name_len);
            Some(
                ParsedWatchRec {
                    file_ref: f.file_ref,
                    parent_ref: f.parent_ref,
                    reason: f.reason,
                    attrs: f.attrs,
                    name: utf16::text_of_bytes(&name_bytes),
                    is_dir: f.attrs & ATTRIBUTE_DIRECTORY != 0,
                    file_id_128: f.file_id_128,
                },
            )
        },
    }
}

/// Reads the records of a journal buffer; the first eight bytes hold the next position.
pub fn parse_watch_batch(buf: &[u8]) -> (r: Vec<ParsedWatchRec>)
    ensures
        watch_recs(r@) == readable(record_slices(buf@, 8)),
{
    let n: usize = buf.len();
    let mut out: Vec<ParsedWatchRec> = Vec::new();
    let mut off: usize = 8;
    let ghost all = readable(record_slices(buf@, 8));
    proof {
        assert(watch_recs(out@) + all =~= all);
    }
    while off <= n && n - off >= 8
        invariant_except_break
            n == buf@.len(),
            8 <= off,
            all == readable(record_slices(buf@, 8)),
            watch_recs(out@) + readable(record_slices(buf@, off as int)) == all,
        ensures
            watch_recs(out@) == all,
        decreases n - off,
    {
        let ghost slices = record_slices(buf@, off as int);
        let record_len: u32 = bytes::read_u32(buf, off);
        if record_len < 8 || (record_len as u64) > (n - off) as u64 {
            proof {
                assert(slices =~= Seq::empty());
                assert(watch_recs(out@) =~= all);
            }
            break;
        }
        let end: usize = off + record_len as usize;
        let rec = slice_between(buf, off, end);
        proof {
            assert(slices[0] == rec@);
            assert(slices.drop_first() =~= record_slices(buf@, end as int));
        }
        let ghost before = watch_recs(out@);
        match parse_watch_rec(&rec) {
            Some(r) => {
                out.push(r);
                proof {
                    assert(watch_recs(out@) =~= before.push(r@));
                    assert(before.push(r@) + readable(slices.drop_first()) =~= before + (seq![r@]
                        + readable(slices.drop_first())));
                }
            },
            None => {},
        }
        off = end;
    }
    out
}

// ---- merging ------------------------------------------------------------------------------

/// A later record of the same file on top of an earlier one: the reasons add up, everything else
/// is as the later record has it; a 128-bit identifier is not forgotten.
pub open spec fn merged(a: WatchRecView, r: WatchRecView) -> WatchRecView {
    WatchRecView {
        file_ref: a.file_ref,
        parent_ref: r.parent_ref,
        reason: a.reason | r.reason,
        attrs: r.attrs,
        name: r.name,
        is_dir: r.is_dir,
        file_id_128: if r.file_id_128 is Some {
            r.file_id_128
        } else {
            a.file_id_128
        },
    }
}

/// Some record of the run is of file `f`.
pub open spec fn has_ref(s: Seq<WatchRecView>, f: u64) -> bool {
    exists|i: int| 0 <= i < s.len() && #[trigger] s[i].file_ref == f
}

/// The merged records with one more record taken in.
pub open spec fn absorbed(acc: Seq<WatchRecView>, r: WatchRecView) -> Seq<WatchRecView> {
    if has_ref(acc, r.file_ref) {
        Seq::new(
            acc.len(),
            |i: int|
                if acc[i].file_ref == r.file_ref {
                    merged(acc[i], r)
                } else {
                    acc[i]
                },
        )
    } else {
        acc.push(r)
    }
}

/// The records of a batch, one per file.
pub open spec fn coalesced(s: Seq<WatchRecView>) -> Seq<WatchRecView>
    decreases s.len(),
{
    if s.len() == 0 {
        Seq::empty()
    } else {
        absorbed(coalesced(s.drop_last()), s.last())
    }
}

/// No two records of the run are of the same file.
pub open spec fn distinct_refs(s: Seq<WatchRecView>) -> bool {
    forall|i: int, j: int|
        0 <= i < j < s.len() ==> #[trigger] s[i].file_ref != #[trigger] s[j].file_ref
}

proof fn lemma_absorbed_distinct(acc: Seq<WatchRecView>, r: WatchRecView)
    requires
        distinct_refs(acc),
    ensures
        distinct_refs(absorbed(acc, r)),
{
}

/// Merges the records of one batch: one record per file, in the order in which the files first
/// occur, with the reasons of all its records and the name, parent and attributes of the last.
pub fn coalesce_watch_batch(recs: Vec<ParsedWatchRec>) -> (r: Vec<ParsedWatchRec>)
    ensures
        watch_recs(r@) == coalesced(watch_recs(recs@)),
{
    let ghost all = watch_recs(recs@);
    let ghost input = recs@;
    let mut out: Vec<ParsedWatchRec> = Vec::new();
    let mut place: HashMap<u64, usize> = HashMap::new();
    proof {
        assert(watch_recs(out@) =~= coalesced(all.take(0)));
    }
    for r in it: recs
        invariant
            it.seq() == input,
            all == watch_recs(input),
            watch_recs(out@) == coalesced(all.take(it.index() as int)),
            distinct_refs(watch_recs(out@)),
            forall|f: u64| #[trigger]
                place@.contains_key(f) ==> place@[f] < out@.len() && out@[place@[f] as int].file_ref
                    == f,
            forall|k: int| 0 <= k < out@.len() ==> place@.contains_key(#[trigger] out@[k].file_ref),
    {
        let ghost before = out@;
        let ghost acc = watch_recs(out@);
        let ghost rv = r@;
        proof {
            assert(all[it.index() as int] == rv);
            assert(all.take(it.index() + 1).drop_last() =~= all.take(it.index() as int));
            assert(all.take(it.index() + 1).last() == rv);
            assert forall|k: int| 0 <= k < acc.len() implies acc[k] == before[k]@ by {}
        }
        match place.get(&r.file_ref) {
            Some(at) => {
                let k: usize = *at;
                let a = &mut out[k];
                a.reason = a.reason | r.reason;
                a.parent_ref = r.parent_ref;
                a.name = r.name;
                a.attrs = r.attrs;
                a.is_dir = r.is_dir;
                if r.file_id_128.is_some() {
                    a.file_id_128 = r.file_id_128;
                }
                proof {
                    assert(acc[k as int].file_ref == rv.file_ref);
                    assert(has_ref(acc, rv.file_ref));
                    assert(watch_recs(out@) =~= absorbed(acc, rv));
                }
            },
            None => {
                let f: u64 = r.file_ref;
                let at: usize = out.len();
                out.push(r);
                place.insert(f, at);
                proof {
                    assert(!has_ref(acc, rv.file_ref)) by {
                        if has_ref(acc, rv.file_ref) {
                            let k = choose|k: int|
                                0 <= k < acc.len() && #[trigger] acc[k].file_ref == rv.file_ref;
                            assert(before[k].file_ref == rv.file_ref);
                        }
                    }
                    assert(watch_recs(out@) =~= absorbed(acc, rv));
                }
            },
        }
        proof {
            lemma_absorbed_distinct(acc, rv);
        }
    }
    assert(all.take(all.len() as int) =~= all);
    out
}

/// The files of a run, each once, in the order in which they first occur.
pub open spec fn first_refs(s: Seq<WatchRecView>) -> Seq<u64>
    decreases s.len(),
{
    if s.len() == 0 {
        Seq::empty()
    } else {
        let rest = first_refs(s.drop_last());
        if rest.contains(s.last().file_ref) {
            rest
        } else {
            rest.push(s.last().file_ref)
        }
    }
}

/// All reasons that the run states of file `f`.
pub open spec fn reasons_of(s: Seq<WatchRecView>, f: u64) -> u32
    decreases s.len(),
{
    if s.len() == 0 {
        0
    } else if s.last().file_ref == f {
        reasons_of(s.drop_last(), f) | s.last().reason
    } else {
        reasons_of(s.drop_last(), f)
    }
}

/// The last record of file `f`.
pub open spec fn latest_of(s: Seq<WatchRecView>, f: u64) -> Option<WatchRecView>
    decreases s.len(),
{
    if s.len() == 0 {
        None
    } else if s.last().file_ref == f {
        Some(s.last())
    } else {
        latest_of(s.drop_last(), f)
    }
}

/// The last 128-bit identifier that the run gives for file `f`.
pub open spec fn latest_id_of(s: Seq<WatchRecView>, f: u64) -> Option<Seq<u8>>
    decreases s.len(),
{
    if s.len() == 0 {
        None
    } else if s.last().file_ref == f && s.last().file_id_128 is Some {
        s.last().file_id_128
    } else {
        latest_id_of(s.drop_last(), f)
    }
}

pub open spec fn refs(s: Seq<WatchRecView>) -> Seq<u64> {
    s.map_values(|r: WatchRecView| r.file_ref)
}

/// The record says of its file what the whole run says of it.
pub open spec fn sums_up(r: WatchRecView, s: Seq<WatchRecView>) -> bool {
    latest_of(s, r.file_ref) matches Some(l) && r == (WatchRecView {
        file_ref: r.file_ref,
        parent_ref: l.parent_ref,
        reason: reasons_of(s, r.file_ref),
        attrs: l.attrs,
        name: l.name,
        is_dir: l.is_dir,
        file_id_128: latest_id_of(s, r.file_ref),
    })
}

proof fn lemma_nothing_of_absent(s: Seq<WatchRecView>, f: u64)
    requires
        !first_refs(s).contains(f),
    ensures
        reasons_of(s, f) == 0,
        latest_of(s, f) is None,
        latest_id_of(s, f) is None,
    decreases s.len(),
{
    if s.len() > 0 {
        let rest = first_refs(s.drop_last());
        if rest.contains(f) {
            let k = choose|k: int| 0 <= k < rest.len() && rest[k] == f;
            assert(first_refs(s)[k] == f);
        }
        if s.last().file_ref == f {
            if !rest.contains(f) {
                assert(first_refs(s).last() == f);
            }
        }
        lemma_nothing_of_absent(s.drop_last(), f);
    }
}

/// Merging a batch: every file keeps one record, the files stay in the order in which they first
/// occur, and the record of a file holds the union of its reasons, its last known identifier and
/// otherwise its last state.
pub proof fn law_coalesce(s: Seq<WatchRecView>)
    ensures
        distinct_refs(coalesced(s)),
        refs(coalesced(s)) == first_refs(s),
        forall|i: int| 0 <= i < coalesced(s).len() ==> sums_up(#[trigger] coalesced(s)[i], s),
    decreases s.len(),
{
    if s.len() == 0 {
        assert(refs(coalesced(s)) =~= first_refs(s));
    } else {
        let t = s.drop_last();
        let r = s.last();
        let acc = coalesced(t);
        law_coalesce(t);
        lemma_absorbed_distinct(acc, r);
        assert forall|k: int| 0 <= k < acc.len() implies acc[k].file_ref == #[trigger] first_refs(
            t,
        )[k] by {
            assert(refs(acc)[k] == acc[k].file_ref);
        }
        if has_ref(acc, r.file_ref) {
            let k = choose|k: int| 0 <= k < acc.len() && #[trigger] acc[k].file_ref == r.file_ref;
            assert(first_refs(t)[k] == r.file_ref);
            assert(first_refs(t).contains(r.file_ref));
            assert(refs(coalesced(s)) =~= first_refs(s));
        } else {
            if first_refs(t).contains(r.file_ref) {
                let k = choose|k: int| 0 <= k < first_refs(t).len() && first_refs(t)[k] == r.file_ref;
                assert(refs(acc)[k] == acc[k].file_ref);
                assert(false);
            }
            assert(refs(coalesced(s)) =~= first_refs(s));
            lemma_nothing_of_absent(t, r.file_ref);
            let x = r.reason;
            assert(0u32 | x == x) by (bit_vector);
        }
        assert forall|i: int| 0 <= i < coalesced(s).len() implies sums_up(
            #[trigger] coalesced(s)[i],
            s,
        ) by {
            let c = coalesced(s)[i];
            if i < acc.len() {
                assert(sums_up(acc[i], t));
            }
        }
    }
}

/// A batch without two records of the same file is left as it is; merging twice is merging once.
pub proof fn law_coalesce_idempotent(s: Seq<WatchRecView>)
    ensures
        distinct_refs(s) ==> coalesced(s) == s,
        coalesced(coalesced(s)) == coalesced(s),
    decreases s.len(),
{
    law_coalesce(s);
    lemma_coalesce_distinct(coalesced(s));
    if distinct_refs(s) {
        lemma_coalesce_distinct(s);
    }
}

proof fn lemma_coalesce_distinct(s: Seq<WatchRecView>)
    requires
        distinct_refs(s),
    ensures
        coalesced(s) == s,
    decreases s.len(),
{
    if s.len() > 0 {
        let t = s.drop_last();
        assert forall|i: int, j: int| 0 <= i < j < t.len() implies #[trigger] t[i].file_ref
            != #[trigger] t[j].file_ref by {
            assert(t[i] == s[i] && t[j] == s[j]);
        }
        lemma_coalesce_distinct(t);
        if has_ref(t, s.last().file_ref) {
            let k = choose|k: int| 0 <= k < t.len() && #[trigger] t[k].file_ref == s.last().file_ref;
            assert(s[k].file_ref == s[s.len() - 1].file_ref);
        }
        assert(t.push(s.last()) =~= s);
    }
}

/// The merged records with a run of records taken in.
pub open spec fn absorbed_all(acc: Seq<WatchRecView>, b: Seq<WatchRecView>) -> Seq<WatchRecView>
    decreases b.len(),
{
    if b.len() == 0 {
        acc
    } else {
        absorbed(absorbed_all(acc, b.drop_last()), b.last())
    }
}

proof fn lemma_coalesce_concat(a: Seq<WatchRecView>, b: Seq<WatchRecView>)
    ensures
        coalesced(a + b) == absorbed_all(coalesced(a), b),
    decreases b.len(),
{
    if b.len() == 0 {
        assert(a + b =~= a);
    } else {
        lemma_coalesce_concat(a, b.drop_last());
        assert((a + b).drop_last() =~= a + b.drop_last());
        assert((a + b).last() == b.last());
    }
}

proof fn lemma_has_ref_absorbed(acc: Seq<WatchRecView>, r: WatchRecView, f: u64)
    ensures
        has_ref(absorbed(acc, r), f) <==> has_ref(acc, f) || r.file_ref == f,
{
    let after = absorbed(acc, r);
    if has_ref(acc, f) {
        let k = choose|k: int| 0 <= k < acc.len() && #[trigger] acc[k].file_ref == f;
        assert(after[k].file_ref == f);
    }
    if r.file_ref == f && !has_ref(acc, f) {
        assert(after[acc.len() as int].file_ref == f);
    }
    if has_ref(after, f) {
        let k = choose|k: int| 0 <= k < after.len() && #[trigger] after[k].file_ref == f;
        if k < acc.len() {
            assert(acc[k].file_ref == f);
        }
    }
}

proof fn lemma_has_ref_all(acc: Seq<WatchRecView>, b: Seq<WatchRecView>, f: u64)
    requires
        has_ref(b, f),
    ensures
        has_ref(absorbed_all(acc, b), f),
    decreases b.len(),
{
    let k = choose|k: int| 0 <= k < b.len() && #[trigger] b[k].file_ref == f;
    let init = b.drop_last();
    lemma_has_ref_absorbed(absorbed_all(acc, init), b.last(), f);
    if k < init.len() {
        assert(init[k].file_ref == f);
        lemma_has_ref_all(acc, init, f);
    }
}

/// A record of a file that is there already can be taken in before one of another file.
proof fn lemma_absorb_swap(acc: Seq<WatchRecView>, x: WatchRecView, r: WatchRecView)
    requires
        x.file_ref != r.file_ref,
        has_ref(acc, r.file_ref),
    ensures
        absorbed(absorbed(acc, x), r) == absorbed(absorbed(acc, r), x),
{
    lemma_has_ref_absorbed(acc, x, r.file_ref);
    lemma_has_ref_absorbed(acc, r, x.file_ref);
    assert(absorbed(absorbed(acc, x), r) =~= absorbed(absorbed(acc, r), x));
}

/// Taking in two records of one file is taking in their merge.
proof fn lemma_absorb_twice(acc: Seq<WatchRecView>, x: WatchRecView, r: WatchRecView)
    requires
        x.file_ref == r.file_ref,
    ensures
        absorbed(absorbed(acc, x), r) == absorbed(acc, merged(x, r)),
{
    lemma_has_ref_absorbed(acc, x, r.file_ref);
    let twice = absorbed(absorbed(acc, x), r);
    let once = absorbed(acc, merged(x, r));
    assert forall|i: int| 0 <= i < once.len() implies twice[i] == once[i] by {
        if i < acc.len() {
            let a = acc[i].reason;
            let b = x.reason;
            let c = r.reason;
            assert((a | b) | c == a | (b | c)) by (bit_vector);
        }
        if !has_ref(acc, x.file_ref) && i < acc.len() {
            assert(acc[i].file_ref != x.file_ref);
        }
    }
    assert(twice =~= once);
}

proof fn lemma_absorb_merged(acc: Seq<WatchRecView>, c: Seq<WatchRecView>, r: WatchRecView)
    requires
        distinct_refs(c),
    ensures
        absorbed_all(acc, absorbed(c, r)) == absorbed(absorbed_all(acc, c), r),
    decreases c.len(),
{
    let all = absorbed(c, r);
    if !has_ref(c, r.file_ref) {
        assert(all.drop_last() =~= c);
    } else {
        let k = choose|k: int| 0 <= k < c.len() && #[trigger] c[k].file_ref == r.file_ref;
        let init = c.drop_last();
        let x = c.last();
        let before = absorbed_all(acc, init);
        assert(distinct_refs(init)) by {
            assert forall|i: int, j: int| 0 <= i < j < init.len() implies #[trigger] init[i].file_ref
                != #[trigger] init[j].file_ref by {
                assert(c[i].file_ref != c[j].file_ref);
            }
        }
        if x.file_ref == r.file_ref {
            assert forall|i: int| 0 <= i < init.len() implies all[i] == init[i] by {
                assert(c[i].file_ref != c[c.len() - 1].file_ref);
            }
            assert(all.drop_last() =~= init);
            assert(all.last() == merged(x, r));
            lemma_absorb_twice(before, x, r);
        } else {
            assert(init[k].file_ref == r.file_ref);
            assert(has_ref(init, r.file_ref));
            assert(all.drop_last() =~= absorbed(init, r));
            assert(all.last() == x);
            lemma_absorb_merged(acc, init, r);
            lemma_has_ref_all(acc, init, r.file_ref);
            lemma_absorb_swap(before, x, r);
        }
    }
}

proof fn lemma_absorb_coalesced(acc: Seq<WatchRecView>, b: Seq<WatchRecView>)
    ensures
        absorbed_all(acc, coalesced(b)) == absorbed_all(acc, b),
    decreases b.len(),
{
    if b.len() > 0 {
        let init = b.drop_last();
        lemma_absorb_coalesced(acc, init);
        law_coalesce(init);
        lemma_absorb_merged(acc, coalesced(init), b.last());
    }
}

/// How a batch is cut does not matter: merging two merged halves gives the merge of the whole.
pub proof fn law_coalesce_in_halves(a: Seq<WatchRecView>, b: Seq<WatchRecView>)
    ensures
        coalesced(coalesced(a) + coalesced(b)) == coalesced(a + b),
{
    lemma_coalesce_concat(a, b);
    lemma_coalesce_concat(coalesced(a), coalesced(b));
    law_coalesce_idempotent(a);
    lemma_absorb_coalesced(coalesced(a), b);
}

// ---- messages -----------------------------------------------------------------------------

pub open spec fn flagged(reason: u32, flag: u32) -> bool {
    reason & flag != 0
}

pub open spec fn stat_refresh(r: WatchRecView) -> Seq<UsnWatchMsgView> {
    if r.is_dir {
        Seq::empty()
    } else {
        seq![UsnWatchMsgView::StatRefresh { file_id: r.file_ref, file_id_128: r.file_id_128 }]
    }
}

pub open spec fn delete_event(r: WatchRecView) -> Seq<UsnWatchMsgView> {
    if flagged(r.reason, REASON_FILE_DELETE) {
        seq![UsnWatchMsgView::Event(ChangeEventView::Delete { file_id: r.file_ref })]
    } else {
        Seq::empty()
    }
}

/// What one merged record makes the watcher send:
/// a deletion first, where the file was deleted;
/// a rename where an old name went away, and a refresh where a new one came with it;
/// a new entry and a refresh where the file was created or only its new name was seen;
/// a refresh alone where only contents or attributes changed.
/// Directories are never refreshed.
pub open spec fn emitted(r: WatchRecView) -> Seq<UsnWatchMsgView> {
    let old_name = flagged(r.reason, REASON_RENAME_OLD_NAME);
    let new_name = flagged(r.reason, REASON_RENAME_NEW_NAME);
    if old_name {
        delete_event(r) + seq![
            UsnWatchMsgView::Event(
                ChangeEventView::Rename {
                    file_id: r.file_ref,
                    new_parent_id: r.parent_ref,
                    new_name: r.name,
                },
            ),
        ] + (if new_name {
            stat_refresh(r)
        } else {
            Seq::empty()
        })
    } else if new_name || flagged(r.reason, REASON_FILE_CREATE) {
        delete_event(r) + seq![
            UsnWatchMsgView::Event(
                ChangeEventView::CreatePending {
                    file_id: r.file_ref,
                    file_id_128: r.file_id_128,
                    parent_id: r.parent_ref,
                    name: r.name,
                    attrs: r.attrs,
                    is_dir: r.is_dir,
                },
            ),
        ] + stat_refresh(r)
    } else if flagged(r.reason, REASON_DATA_EXTEND) || flagged(r.reason, REASON_DATA_TRUNCATION)
        || flagged(r.reason, REASON_BASIC_INFO_CHANGE) {
        delete_event(r) + stat_refresh(r)
    } else {
        delete_event(r)
    }
}

fn push_stat(rec: &ParsedWatchRec, out: &mut Vec<UsnWatchMsg>)
    ensures
        messages(final(out)@) == messages(old(out)@) + stat_refresh(rec@),
{
    if !rec.is_dir {
        let m = UsnWatchMsg::StatRefresh {
            file_id: rec.file_ref,
            file_id_128: rec.file_id_128,
        };
        let ghost mv = m@;
        out.push(m);
        assert(messages(out@) =~= messages(old(out)@).push(mv));
    }
    assert(messages(out@) =~= messages(old(out)@) + stat_refresh(rec@));
}

/// Appends the messages of one merged record.
pub fn emit_coalesced_watch_rec(rec: &ParsedWatchRec, out: &mut Vec<UsnWatchMsg>)
    ensures
        messages(final(out)@) == messages(old(out)@) + emitted(rec@),
{
    if rec.reason & REASON_FILE_DELETE != 0 {
        out.push(UsnWatchMsg::Event(ChangeEvent::Delete { file_id: rec.file_ref }));
    }
    assert(messages(out@) =~= messages(old(out)@) + delete_event(rec@));
    let ghost deleted = messages(out@);
    let old_name = rec.reason & REASON_RENAME_OLD_NAME != 0;
    let new_name = rec.reason & REASON_RENAME_NEW_NAME != 0;
    if old_name {
        let m = UsnWatchMsg::Event(
            ChangeEvent::Rename {
                file_id: rec.file_ref,
                new_parent_id: rec.parent_ref,
                new_name: text::copied(&rec.name),
            },
        );
        let ghost mv = m@;
        out.push(m);
        proof {
            assert(messages(out@) =~= deleted.push(mv));
        }
        if new_name {
            push_stat(rec, out);
        }
    } else if new_name || rec.reason & REASON_FILE_CREATE != 0 {
        let m = UsnWatchMsg::Event(
            ChangeEvent::CreatePending {
                file_id: rec.file_ref,
                file_id_128: rec.file_id_128,
                parent_id: rec.parent_ref,
                name: text::copied(&rec.name),
                attrs: rec.attrs,
                is_dir: rec.is_dir,
            },
        );
        let ghost mv = m@;
        out.push(m);
        proof {
            assert(messages(out@) =~= deleted.push(mv));
        }
        push_stat(rec, out);
    } else if rec.reason & REASON_DATA_EXTEND != 0 || rec.reason & REASON_DATA_TRUNCATION != 0
        || rec.reason & REASON_BASIC_INFO_CHANGE != 0 {
        push_stat(rec, out);
    }
    assert(messages(out@) =~= messages(old(out)@) + emitted(rec@));
}

/// The messages of a run of merged records.
pub open spec fn emitted_all(s: Seq<WatchRecView>) -> Seq<UsnWatchMsgView>
    decreases s.len(),
{
    if s.len() == 0 {
        Seq::empty()
    } else {
        emitted_all(s.drop_last()) + emitted(s.last())
    }
}

/// The position and the messages after one read: a read of fewer than eight bytes changes
/// nothing; any other sends the changes, and then moves the position and reports it. So every change
/// before a reported position was handed out before it.
pub open spec fn watch_step_of(journal_id: u64, cursor: i64, buf: Seq<u8>) -> (
    i64,
    Seq<UsnWatchMsgView>,
) {
    if buf.len() < 8 {
        (cursor, Seq::empty())
    } else {
        let next = bytes::i64_at(buf, 0);
        (
            next,
            emitted_all(coalesced(readable(record_slices(buf, 8)))).push(
                UsnWatchMsgView::Checkpoint { journal_id, next_usn: next as u64 },
            ),
        )
    }
}

/// Turns the bytes of one journal read into the next position and the messages to send.
pub fn watch_step(journal_id: u64, cursor: i64, buf: &[u8]) -> (r: (i64, Vec<UsnWatchMsg>))
    ensures
        (r.0, messages(r.1@)) == watch_step_of(journal_id, cursor, buf@),
{
    let mut out: Vec<UsnWatchMsg> = Vec::new();
    if buf.len() < 8 {
        assert(messages(out@) =~= Seq::empty());
        return (cursor, out);
    }
    let next: i64 = bytes::read_i64(buf, 0);
    let recs = coalesce_watch_batch(parse_watch_batch(buf));
    let ghost views = watch_recs(recs@);
    let mut i: usize = 0;
    proof {
        assert(messages(out@) =~= emitted_all(views.take(0)));
    }
    while i < recs.len()
        invariant
            i <= recs.len(),
            views == watch_recs(recs@),
            messages(out@) == emitted_all(views.take(i as int)),
        decreases recs.len() - i,
    {
        emit_coalesced_watch_rec(&recs[i], &mut out);
        proof {
            assert(views.take(i + 1).drop_last() =~= views.take(i as int));
            assert(views.take(i + 1).last() == recs@[i as int]@);
        }
        i += 1;
    }
    let ghost sent = messages(out@);
    let last = UsnWatchMsg::Checkpoint { journal_id, next_usn: next as u64 };
    let ghost lv = last@;
    out.push(last);
    proof {
        assert(views.take(views.len() as int) =~= views);
        assert(messages(out@) =~= sent.push(lv));
    }
    (next, out)
}

proof fn lemma_emitted_changes(s: Seq<WatchRecView>)
    ensures
        forall|i: int|
            0 <= i < emitted_all(s).len() ==> !(#[trigger] emitted_all(s)[i] is Checkpoint),
    decreases s.len(),
{
    if s.len() > 0 {
        lemma_emitted_changes(s.drop_last());
        let rest = emitted_all(s.drop_last());
        let more = emitted(s.last());
        assert forall|i: int| 0 <= i < emitted_all(s).len() implies !(#[trigger] emitted_all(s)[i]
            is Checkpoint) by {
            if i < rest.len() {
                assert(emitted_all(s)[i] == rest[i]);
            } else {
                assert(emitted_all(s)[i] == more[i - rest.len()]);
            }
        }
    }
}

/// A read reports its position once, behind all of its changes: whoever keeps the reported position
/// has been handed every change before it.
pub proof fn law_position_comes_last(journal_id: u64, cursor: i64, buf: Seq<u8>, i: int)
    requires
        0 <= i < watch_step_of(journal_id, cursor, buf).1.len(),
    ensures
        ({
            let out = watch_step_of(journal_id, cursor, buf).1;
            out[i] is Checkpoint <==> i == out.len() - 1
        }),
{
    lemma_emitted_changes(coalesced(readable(record_slices(buf, 8))));
}

// ---- what a read says, byte by byte -------------------------------------------------------

/// A record of version 2 with its name inside.
pub open spec fn version_two(rec: Seq<u8>) -> bool {
    &&& rec.len() >= 60
    &&& bytes::u16_at(rec, 4) == 2
    &&& bytes::u16_at(rec, 58) + bytes::u16_at(rec, 56) <= rec.len()
}

/// A record of version 3 with its name inside.
pub open spec fn version_three(rec: Seq<u8>) -> bool {
    &&& rec.len() >= 76
    &&& bytes::u16_at(rec, 4) == 3
    &&& bytes::u16_at(rec, 74) + bytes::u16_at(rec, 72) <= rec.len()
}

/// A record that can be read.
pub open spec fn legible(rec: Seq<u8>) -> bool {
    version_two(rec) || version_three(rec)
}

/// The file that a record is of.
pub open spec fn said_file(rec: Seq<u8>) -> u64 {
    bytes::u64_at(rec, 8)
}

/// The directory that the file is in.
pub open spec fn said_parent(rec: Seq<u8>) -> u64 {
    if bytes::u16_at(rec, 4) == 2 {
        bytes::u64_at(rec, 16)
    } else {
        bytes::u64_at(rec, 24)
    }
}

pub open spec fn said_time(rec: Seq<u8>) -> u64 {
    if bytes::u16_at(rec, 4) == 2 {
        bytes::u64_at(rec, 32)
    } else {
        bytes::u64_at(rec, 48)
    }
}

/// What happened to the file.
pub open spec fn said_reason(rec: Seq<u8>) -> u32 {
    if bytes::u16_at(rec, 4) == 2 {
        bytes::u32_at(rec, 40)
    } else {
        bytes::u32_at(rec, 56)
    }
}

pub open spec fn said_attrs(rec: Seq<u8>) -> u32 {
    if bytes::u16_at(rec, 4) == 2 {
        bytes::u32_at(rec, 52)
    } else {
        bytes::u32_at(rec, 68)
    }
}

/// The UTF-16 bytes of the name.
pub open spec fn said_name_bytes(rec: Seq<u8>) -> Seq<u8> {
    if bytes::u16_at(rec, 4) == 2 {
        let at = bytes::u16_at(rec, 58) as int;
        rec.subrange(at, at + bytes::u16_at(rec, 56))
    } else {
        let at = bytes::u16_at(rec, 74) as int;
        rec.subrange(at, at + bytes::u16_at(rec, 72))
    }
}

/// The record gives its file this name.
pub open spec fn says_name(rec: Seq<u8>, name: Seq<char>) -> bool {
    name == utf16::decoded(utf16::le_units(said_name_bytes(rec)))
}

/// The 128-bit identifier of the file, which only version 3 has.
pub open spec fn said_id(rec: Seq<u8>) -> Option<Seq<u8>> {
    if bytes::u16_at(rec, 4) == 3 {
        Some(rec.subrange(8, 24))
    } else {
        None
    }
}

/// Records in one piece, one behind the other.
pub open spec fn in_a_row(recs: Seq<Seq<u8>>) -> Seq<u8>
    decreases recs.len(),
{
    if recs.len() == 0 {
        Seq::empty()
    } else {
        recs[0] + in_a_row(recs.drop_first())
    }
}

/// Each record states its own length in its first four bytes.
pub open spec fn each_states_its_length(recs: Seq<Seq<u8>>) -> bool {
    forall|i: int|
        0 <= i < recs.len() ==> (#[trigger] recs[i]).len() >= 8 && bytes::u32_at(recs[i], 0)
            == recs[i].len()
}

proof fn lemma_slices_of_row(before: Seq<u8>, recs: Seq<Seq<u8>>)
    requires
        each_states_its_length(recs),
    ensures
        record_slices(before + in_a_row(recs), before.len() as int) == recs,
    decreases recs.len(),
{
    let b = before + in_a_row(recs);
    let off = before.len() as int;
    if recs.len() == 0 {
        assert(record_slices(b, off) =~= recs);
    } else {
        let r = recs[0];
        let rest = recs.drop_first();
        assert(each_states_its_length(rest)) by {
            assert forall|i: int| 0 <= i < rest.len() implies (#[trigger] rest[i]).len() >= 8
                && bytes::u32_at(rest[i], 0) == rest[i].len() by {
                assert(rest[i] == recs[i + 1]);
            }
        }
        lemma_slices_of_row(before + r, rest);
        assert((before + r) + in_a_row(rest) =~= b);
        assert(b.subrange(off, off + r.len()) =~= r);
        assert(b.subrange(off, off + 4) =~= r.subrange(0, 4));
        bytes::lemma_read_shifted(b, r, off, 0);
        assert(seq![r] + rest =~= recs);
    }
}

/// The records of a buffer are found one behind the other, from its ninth byte on.
pub proof fn law_records_are_found(head: Seq<u8>, recs: Seq<Seq<u8>>)
    requires
        head.len() == 8,
        each_states_its_length(recs),
    ensures
        record_slices(head + in_a_row(recs), 8) == recs,
{
    lemma_slices_of_row(head, recs);
}

/// What the watcher makes of a record stands in the record, at the place that its version has for
/// it; a record is passed over only where it is of another version or cut short.
pub proof fn law_record_is_read_as_written(rec: Seq<u8>)
    ensures
        watch_rec(rec) is Some <==> legible(rec),
        watch_rec(rec) matches Some(w) ==> {
            &&& w.file_ref == said_file(rec)
            &&& w.parent_ref == said_parent(rec)
            &&& w.reason == said_reason(rec)
            &&& w.attrs == said_attrs(rec)
            &&& says_name(rec, w.name)
            &&& w.is_dir <==> said_attrs(rec) & 0x10 != 0
            &&& w.file_id_128 == said_id(rec)
        },
{
}

/// A record of file `f` among the records that can be read.
pub open spec fn speaks_of(rec: Seq<u8>, f: u64) -> bool {
    legible(rec) && said_file(rec) == f
}

/// Some record of the run says that this happened to file `f`.
pub open spec fn happened(recs: Seq<Seq<u8>>, f: u64, what: u32) -> bool {
    exists|j: int|
        0 <= j < recs.len() && speaks_of(#[trigger] recs[j], f) && said_reason(recs[j]) & what != 0
}

/// Record `i` is the last of the run that speaks of its file.
pub open spec fn last_word(recs: Seq<Seq<u8>>, i: int) -> bool {
    &&& 0 <= i < recs.len()
    &&& legible(recs[i])
    &&& forall|j: int| i < j < recs.len() ==> !speaks_of(#[trigger] recs[j], said_file(recs[i]))
}

proof fn lemma_readable_push(recs: Seq<Seq<u8>>, x: Seq<u8>)
    ensures
        readable(recs.push(x)) == (match watch_rec(x) {
            Some(w) => readable(recs).push(w),
            None => readable(recs),
        }),
    decreases recs.len(),
{
    let all = recs.push(x);
    if recs.len() == 0 {
        assert(all.drop_first() =~= Seq::empty());
        assert(readable(all.drop_first()) =~= Seq::empty());
        assert(readable(all) =~= (match watch_rec(x) {
            Some(w) => readable(recs).push(w),
            None => readable(recs),
        }));
    } else {
        assert(all.drop_first() =~= recs.drop_first().push(x));
        lemma_readable_push(recs.drop_first(), x);
        assert(readable(all) =~= (match watch_rec(x) {
            Some(w) => readable(recs).push(w),
            None => readable(recs),
        }));
    }
}

/// What the whole run says of the file of its record `i`, the last of that file.
proof fn lemma_latest(recs: Seq<Seq<u8>>, i: int)
    requires
        last_word(recs, i),
    ensures
        latest_of(readable(recs), said_file(recs[i])) == watch_rec(recs[i]),
        first_refs(readable(recs)).contains(said_file(recs[i])),
    decreases recs.len(),
{
    let t = recs.drop_last();
    let x = recs.last();
    let f = said_file(recs[i]);
    assert(t.push(x) =~= recs);
    lemma_readable_push(t, x);
    law_record_is_read_as_written(x);
    law_record_is_read_as_written(recs[i]);
    let s = readable(recs);
    if i < t.len() {
        assert(recs[recs.len() - 1] == x);
        assert(!speaks_of(x, f));
        assert forall|j: int| i < j < t.len() implies !speaks_of(#[trigger] t[j], f) by {
            assert(t[j] == recs[j]);
        }
        lemma_latest(t, i);
        if watch_rec(x) is Some {
            assert(s.drop_last() =~= readable(t));
            let rest = first_refs(readable(t));
            let k = choose|k: int| 0 <= k < rest.len() && rest[k] == f;
            assert(first_refs(s)[k] == f);
        }
    } else {
        assert(s.drop_last() =~= readable(t));
        if !first_refs(readable(t)).contains(f) {
            assert(first_refs(s).last() == f);
        }
    }
}

proof fn lemma_flag_of_two(a: u32, b: u32, what: u32)
    ensures
        (a | b) & what != 0 <==> a & what != 0 || b & what != 0,
        0u32 & what == 0,
{
    assert((a | b) & what != 0 <==> a & what != 0 || b & what != 0) by (bit_vector);
    assert(0u32 & what == 0) by (bit_vector);
}

proof fn lemma_happened(recs: Seq<Seq<u8>>, f: u64, what: u32)
    ensures
        reasons_of(readable(recs), f) & what != 0 <==> happened(recs, f, what),
    decreases recs.len(),
{
    if recs.len() == 0 {
        lemma_flag_of_two(0, 0, what);
    } else {
        let t = recs.drop_last();
        let x = recs.last();
        assert(t.push(x) =~= recs);
        lemma_readable_push(t, x);
        lemma_happened(t, f, what);
        law_record_is_read_as_written(x);
        let s = readable(recs);
        if watch_rec(x) is Some {
            assert(s.drop_last() =~= readable(t));
            lemma_flag_of_two(reasons_of(readable(t), f), said_reason(x), what);
        }
        if happened(t, f, what) {
            let j = choose|j: int|
                0 <= j < t.len() && speaks_of(#[trigger] t[j], f) && said_reason(t[j]) & what != 0;
            assert(recs[j] == t[j]);
        }
        if happened(recs, f, what) {
            let j = choose|j: int|
                0 <= j < recs.len() && speaks_of(#[trigger] recs[j], f) && said_reason(recs[j]) & what
                    != 0;
            if j < t.len() {
                assert(t[j] == recs[j]);
            }
        }
        if speaks_of(x, f) && said_reason(x) & what != 0 {
            assert(recs[recs.len() - 1] == x);
        }
    }
}

/// The renames of file `f` among messages.
pub open spec fn renames_of(f: u64) -> spec_fn(UsnWatchMsgView) -> bool {
    |m: UsnWatchMsgView|
        m matches UsnWatchMsgView::Event(ChangeEventView::Rename { file_id, .. }) && file_id == f
}

/// The new entries of file `f` among messages.
pub open spec fn creations_of(f: u64) -> spec_fn(UsnWatchMsgView) -> bool {
    |m: UsnWatchMsgView|
        m matches UsnWatchMsgView::Event(ChangeEventView::CreatePending { file_id, .. }) && file_id
            == f
}

/// The deletions of file `f` among messages.
pub open spec fn deletions_of(f: u64) -> spec_fn(UsnWatchMsgView) -> bool {
    |m: UsnWatchMsgView|
        m matches UsnWatchMsgView::Event(ChangeEventView::Delete { file_id }) && file_id == f
}

/// The refreshes of file `f` among messages.
pub open spec fn refreshes_of(f: u64) -> spec_fn(UsnWatchMsgView) -> bool {
    |m: UsnWatchMsgView| m matches UsnWatchMsgView::StatRefresh { file_id, .. } && file_id == f
}

/// The file that a message is about.
pub open spec fn file_of(m: UsnWatchMsgView) -> Option<u64> {
    match m {
        UsnWatchMsgView::Event(ChangeEventView::Delete { file_id }) => Some(file_id),
        UsnWatchMsgView::Event(ChangeEventView::Rename { file_id, .. }) => Some(file_id),
        UsnWatchMsgView::Event(ChangeEventView::CreatePending { file_id, .. }) => Some(file_id),
        UsnWatchMsgView::StatRefresh { file_id, .. } => Some(file_id),
        UsnWatchMsgView::Checkpoint { .. } => None,
    }
}

/// The property holds of messages about file `f` only.
spec fn about(p: spec_fn(UsnWatchMsgView) -> bool, f: u64) -> bool {
    forall|m: UsnWatchMsgView| #[trigger] p(m) ==> file_of(m) == Some(f)
}

proof fn lemma_emitted_of(r: WatchRecView, k: int)
    requires
        0 <= k < emitted(r).len(),
    ensures
        file_of(emitted(r)[k]) == Some(r.file_ref),
{
}

proof fn lemma_none_of_others(r: WatchRecView, p: spec_fn(UsnWatchMsgView) -> bool, f: u64)
    requires
        about(p, f),
        r.file_ref != f,
    ensures
        emitted(r).filter(p) == Seq::<UsnWatchMsgView>::empty(),
{
    let s = emitted(r);
    if s.filter(p).len() > 0 {
        let i = crate::lists::lemma_filter_origin(s, p, 0);
        lemma_emitted_of(r, i);
        assert(p(s[i]));
    }
    assert(s.filter(p) =~= Seq::empty());
}

proof fn lemma_own_messages(
    s: Seq<WatchRecView>,
    p: spec_fn(UsnWatchMsgView) -> bool,
    f: u64,
    at: int,
)
    requires
        about(p, f),
        distinct_refs(s),
        0 <= at < s.len() ==> s[at].file_ref == f,
        at < 0 || at >= s.len() ==> !has_ref(s, f),
    ensures
        emitted_all(s).filter(p) == (if 0 <= at < s.len() {
            emitted(s[at]).filter(p)
        } else {
            Seq::empty()
        }),
    decreases s.len(),
{
    if s.len() == 0 {
        reveal(Seq::filter);
        assert(emitted_all(s).filter(p) =~= Seq::empty());
    } else {
        let t = s.drop_last();
        assert(distinct_refs(t)) by {
            assert forall|i: int, j: int| 0 <= i < j < t.len() implies #[trigger] t[i].file_ref
                != #[trigger] t[j].file_ref by {
                assert(s[i].file_ref != s[j].file_ref);
            }
        }
        let last = s.len() - 1;
        Seq::filter_distributes_over_add(emitted_all(t), emitted(s.last()), p);
        if at == last {
            assert(!has_ref(t, f)) by {
                if has_ref(t, f) {
                    let k = choose|k: int| 0 <= k < t.len() && #[trigger] t[k].file_ref == f;
                    assert(s[k].file_ref != s[last].file_ref);
                }
            }
            lemma_own_messages(t, p, f, -1);
        } else {
            assert(s[last].file_ref != f);
            if 0 <= at < t.len() {
                assert(s[at].file_ref != s[last].file_ref);
                assert(t[at] == s[at]);
            } else {
                assert(!has_ref(t, f)) by {
                    if has_ref(t, f) {
                        let k = choose|k: int| 0 <= k < t.len() && #[trigger] t[k].file_ref == f;
                        assert(s[k].file_ref == f);
                    }
                }
            }
            lemma_own_messages(t, p, f, if 0 <= at < t.len() {
                at
            } else {
                -1
            });
            lemma_none_of_others(s.last(), p, f);
        }
        assert(emitted_all(s).filter(p) =~= (if 0 <= at < s.len() {
            emitted(s[at]).filter(p)
        } else {
            Seq::empty()
        }));
    }
}

/// The messages of a read about the file of record `i`, the last of that file, are those of the
/// merge of its records.
proof fn lemma_messages_of_file(
    journal_id: u64,
    cursor: i64,
    head: Seq<u8>,
    recs: Seq<Seq<u8>>,
    i: int,
    p: spec_fn(UsnWatchMsgView) -> bool,
) -> (c: WatchRecView)
    requires
        head.len() == 8,
        each_states_its_length(recs),
        last_word(recs, i),
        about(p, said_file(recs[i])),
    ensures
        watch_step_of(journal_id, cursor, head + in_a_row(recs)).1.filter(p) == emitted(c).filter(
            p,
        ),
        sums_up(c, readable(recs)),
        c.file_ref == said_file(recs[i]),
{
    let f = said_file(recs[i]);
    let all = readable(recs);
    let merged_recs = coalesced(all);
    law_records_are_found(head, recs);
    law_coalesce(all);
    lemma_latest(recs, i);
    let at = choose|k: int| 0 <= k < first_refs(all).len() && first_refs(all)[k] == f;
    assert(refs(merged_recs)[at] == merged_recs[at].file_ref);
    lemma_own_messages(merged_recs, p, f, at);
    let out = watch_step_of(journal_id, cursor, head + in_a_row(recs)).1;
    let sent = emitted_all(merged_recs);
    crate::lists::lemma_filter_push(sent, out.last(), p);
    assert(out =~= sent.push(out.last()));
    merged_recs[at]
}

spec fn own_rename(r: WatchRecView) -> UsnWatchMsgView {
    let to = r.parent_ref;
    UsnWatchMsgView::Event(
        ChangeEventView::Rename { file_id: r.file_ref, new_parent_id: to, new_name: r.name },
    )
}

spec fn own_creation(r: WatchRecView) -> UsnWatchMsgView {
    let (parent_id, file_id_128) = (r.parent_ref, r.file_id_128);
    let (name, attrs, is_dir) = (r.name, r.attrs, r.is_dir);
    UsnWatchMsgView::Event(
        ChangeEventView::CreatePending {
            file_id: r.file_ref,
            file_id_128,
            parent_id,
            name,
            attrs,
            is_dir,
        },
    )
}

spec fn own_deletion(r: WatchRecView) -> UsnWatchMsgView {
    let file_id = r.file_ref;
    UsnWatchMsgView::Event(ChangeEventView::Delete { file_id })
}

spec fn own_refresh(r: WatchRecView) -> UsnWatchMsgView {
    let (file_id, file_id_128) = (r.file_ref, r.file_id_128);
    UsnWatchMsgView::StatRefresh { file_id, file_id_128 }
}

#[verifier::spinoff_prover]
#[verifier::rlimit(40)]
proof fn lemma_renames(r: WatchRecView)
    ensures
        emitted(r).filter(renames_of(r.file_ref)) == one_if(
            flagged(r.reason, 0x1000),
            own_rename(r),
        ),
{
    let p = renames_of(r.file_ref);
    lemma_pick(r, p);
    lemma_only_one(
        picked(flagged(r.reason, 0x200), own_deletion(r), p),
        picked(flagged(r.reason, 0x1000), own_rename(r), p),
        picked(creates(r), own_creation(r), p),
        picked(touches(r) && !r.is_dir, own_refresh(r), p),
    );
}

#[verifier::spinoff_prover]
#[verifier::rlimit(40)]
proof fn lemma_creations(r: WatchRecView)
    ensures
        emitted(r).filter(creations_of(r.file_ref)) == one_if(
            (!flagged(r.reason, 0x1000) && (flagged(r.reason, 0x2000) || flagged(r.reason, 0x100))),
            own_creation(r),
        ),
{
    let p = creations_of(r.file_ref);
    lemma_pick(r, p);
    lemma_only_one(
        picked(flagged(r.reason, 0x200), own_deletion(r), p),
        picked(flagged(r.reason, 0x1000), own_rename(r), p),
        picked(creates(r), own_creation(r), p),
        picked(touches(r) && !r.is_dir, own_refresh(r), p),
    );
}

#[verifier::spinoff_prover]
#[verifier::rlimit(40)]
proof fn lemma_deletions(r: WatchRecView)
    ensures
        emitted(r).filter(deletions_of(r.file_ref)) == one_if(
            flagged(r.reason, 0x200),
            own_deletion(r),
        ),
{
    let p = deletions_of(r.file_ref);
    lemma_pick(r, p);
    lemma_only_one(
        picked(flagged(r.reason, 0x200), own_deletion(r), p),
        picked(flagged(r.reason, 0x1000), own_rename(r), p),
        picked(creates(r), own_creation(r), p),
        picked(touches(r) && !r.is_dir, own_refresh(r), p),
    );
}

#[verifier::spinoff_prover]
#[verifier::rlimit(40)]
proof fn lemma_refreshes(r: WatchRecView)
    ensures
        emitted(r).filter(refreshes_of(r.file_ref)) == one_if(
            (if flagged(r.reason, 0x1000) {
                flagged(r.reason, 0x2000)
            } else {
                flagged(r.reason, 0x2000) || flagged(r.reason, 0x100) || flagged(r.reason, 0x2)
                    || flagged(r.reason, 0x4) || flagged(r.reason, 0x8000)
            }) && !r.is_dir,
            own_refresh(r),
        ),
{
    let p = refreshes_of(r.file_ref);
    lemma_pick(r, p);
    lemma_only_one(
        picked(flagged(r.reason, 0x200), own_deletion(r), p),
        picked(flagged(r.reason, 0x1000), own_rename(r), p),
        picked(creates(r), own_creation(r), p),
        picked(touches(r) && !r.is_dir, own_refresh(r), p),
    );
}

spec fn creates(r: WatchRecView) -> bool {
    !flagged(r.reason, 0x1000) && (flagged(r.reason, 0x2000) || flagged(r.reason, 0x100))
}

spec fn touches(r: WatchRecView) -> bool {
    if flagged(r.reason, 0x1000) {
        flagged(r.reason, 0x2000)
    } else {
        creates(r) || flagged(r.reason, 0x2) || flagged(r.reason, 0x4) || flagged(r.reason, 0x8000)
    }
}

proof fn lemma_only_one(
    a: Seq<UsnWatchMsgView>,
    b: Seq<UsnWatchMsgView>,
    c: Seq<UsnWatchMsgView>,
    d: Seq<UsnWatchMsgView>,
)
    ensures
        b.len() == 0 && c.len() == 0 && d.len() == 0 ==> a + b + c + d == a,
        a.len() == 0 && c.len() == 0 && d.len() == 0 ==> a + b + c + d == b,
        a.len() == 0 && b.len() == 0 && d.len() == 0 ==> a + b + c + d == c,
        a.len() == 0 && b.len() == 0 && c.len() == 0 ==> a + b + c + d == d,
{
    let all = a + b + c + d;
    if b.len() == 0 && c.len() == 0 && d.len() == 0 {
        assert(all =~= a);
    }
    if a.len() == 0 && c.len() == 0 && d.len() == 0 {
        assert(all =~= b);
    }
    if a.len() == 0 && b.len() == 0 && d.len() == 0 {
        assert(all =~= c);
    }
    if a.len() == 0 && b.len() == 0 && c.len() == 0 {
        assert(all =~= d);
    }
}

/// Picking among the messages of one record is picking in each of its four parts.
#[verifier::spinoff_prover]
#[verifier::rlimit(40)]
proof fn lemma_pick(r: WatchRecView, p: spec_fn(UsnWatchMsgView) -> bool)
    ensures
        emitted(r).filter(p) == picked(flagged(r.reason, 0x200), own_deletion(r), p) + picked(
            flagged(r.reason, 0x1000),
            own_rename(r),
            p,
        ) + picked(creates(r), own_creation(r), p) + picked(
            touches(r) && !r.is_dir,
            own_refresh(r),
            p,
        ),
{
    let d = own_deletion(r);
    let m = own_rename(r);
    let c = own_creation(r);
    let s = own_refresh(r);
    let a = one_if(flagged(r.reason, 0x200), d);
    let b = one_if(flagged(r.reason, 0x1000), m);
    let e = one_if(creates(r), c);
    let g = one_if(touches(r) && !r.is_dir, s);
    assert(emitted(r) =~= a + b + e + g);
    Seq::filter_distributes_over_add(a + b + e, g, p);
    Seq::filter_distributes_over_add(a + b, e, p);
    Seq::filter_distributes_over_add(a, b, p);
    crate::lists::lemma_filter_one(d, p);
    crate::lists::lemma_filter_one(m, p);
    crate::lists::lemma_filter_one(c, p);
    crate::lists::lemma_filter_one(s, p);
}

spec fn one_if(b: bool, m: UsnWatchMsgView) -> Seq<UsnWatchMsgView> {
    if b {
        seq![m]
    } else {
        Seq::empty()
    }
}

spec fn picked(b: bool, m: UsnWatchMsgView, p: spec_fn(UsnWatchMsgView) -> bool) -> Seq<
    UsnWatchMsgView,
> {
    one_if(b && p(m), m)
}

proof fn lemma_ids(recs: Seq<Seq<u8>>, i: int)
    requires
        last_word(recs, i),
    ensures
        version_three(recs[i]) ==> latest_id_of(readable(recs), said_file(recs[i])) == Some(
            recs[i].subrange(8, 24),
        ),
        (forall|j: int|
            0 <= j < recs.len() && speaks_of(#[trigger] recs[j], said_file(recs[i])) ==> version_two(
                recs[j],
            )) ==> latest_id_of(readable(recs), said_file(recs[i])) is None,
    decreases recs.len(),
{
    let t = recs.drop_last();
    let x = recs.last();
    let f = said_file(recs[i]);
    assert(t.push(x) =~= recs);
    lemma_readable_push(t, x);
    law_record_is_read_as_written(x);
    let s = readable(recs);
    if watch_rec(x) is Some {
        assert(s.drop_last() =~= readable(t));
    }
    if i < t.len() {
        assert(recs[recs.len() - 1] == x);
        assert(!speaks_of(x, f));
        assert forall|j: int| i < j < t.len() implies !speaks_of(#[trigger] t[j], f) by {
            assert(t[j] == recs[j]);
        }
        lemma_ids(t, i);
        if forall|j: int|
            0 <= j < recs.len() && speaks_of(#[trigger] recs[j], f) ==> version_two(recs[j]) {
            assert forall|j: int| 0 <= j < t.len() && speaks_of(#[trigger] t[j], f) implies version_two(
                t[j],
            ) by {
                assert(t[j] == recs[j]);
            }
        }
    } else if forall|j: int|
        0 <= j < recs.len() && speaks_of(#[trigger] recs[j], f) ==> version_two(recs[j]) {
        assert(recs[i] == x);
        assert(version_two(x));
        assert forall|j: int| 0 <= j < t.len() && speaks_of(#[trigger] t[j], f) implies version_two(
            t[j],
        ) by {
            assert(t[j] == recs[j]);
        }
        lemma_no_ids(t, f);
    }
}

proof fn lemma_no_ids(recs: Seq<Seq<u8>>, f: u64)
    requires
        forall|j: int|
            0 <= j < recs.len() && speaks_of(#[trigger] recs[j], f) ==> version_two(recs[j]),
    ensures
        latest_id_of(readable(recs), f) is None,
    decreases recs.len(),
{
    if recs.len() > 0 {
        let t = recs.drop_last();
        let x = recs.last();
        assert(t.push(x) =~= recs);
        lemma_readable_push(t, x);
        law_record_is_read_as_written(x);
        assert(recs[recs.len() - 1] == x);
        assert forall|j: int| 0 <= j < t.len() && speaks_of(#[trigger] t[j], f) implies version_two(
            t[j],
        ) by {
            assert(t[j] == recs[j]);
        }
        lemma_no_ids(t, f);
        if watch_rec(x) is Some {
            assert(readable(recs).drop_last() =~= readable(t));
        }
    }
}

/// A file whose old name went away is renamed once in the messages of the read: to the name and
/// into the directory that its last record says. No other file is renamed.
pub proof fn law_renamed_files_go_where_the_journal_says(
    journal_id: u64,
    cursor: i64,
    head: Seq<u8>,
    recs: Seq<Seq<u8>>,
    i: int,
)
    requires
        head.len() == 8,
        each_states_its_length(recs),
        last_word(recs, i),
    ensures
        ({
            let f = said_file(recs[i]);
            let out = watch_step_of(journal_id, cursor, head + in_a_row(recs)).1;
            let renames = out.filter(renames_of(f));
            if happened(recs, f, 0x1000) {
                renames.len() == 1 && (renames[0] matches UsnWatchMsgView::Event(
                    ChangeEventView::Rename { file_id, new_parent_id, new_name },
                ) && file_id == f && new_parent_id == said_parent(recs[i]) && says_name(
                    recs[i],
                    new_name,
                ))
            } else {
                renames.len() == 0
            }
        }),
{
    let f = said_file(recs[i]);
    let c = lemma_messages_of_file(journal_id, cursor, head, recs, i, renames_of(f));
    lemma_renames(c);
    lemma_happened(recs, f, 0x1000);
    lemma_latest(recs, i);
    law_record_is_read_as_written(recs[i]);
}

/// A file that was created, or of which only a new name was seen, is entered once: under the name,
/// in the directory and with the attributes that its last record says.
pub proof fn law_new_files_are_entered_where_the_journal_says(
    journal_id: u64,
    cursor: i64,
    head: Seq<u8>,
    recs: Seq<Seq<u8>>,
    i: int,
)
    requires
        head.len() == 8,
        each_states_its_length(recs),
        last_word(recs, i),
    ensures
        ({
            let f = said_file(recs[i]);
            let out = watch_step_of(journal_id, cursor, head + in_a_row(recs)).1;
            let made = out.filter(creations_of(f));
            if !happened(recs, f, 0x1000) && (happened(recs, f, 0x2000) || happened(
                recs,
                f,
                0x100,
            )) {
                made.len() == 1 && (made[0] matches UsnWatchMsgView::Event(
                    ChangeEventView::CreatePending {
                        file_id,
                        file_id_128,
                        parent_id,
                        name,
                        attrs,
                        is_dir,
                    },
                ) && file_id == f && parent_id == said_parent(recs[i]) && says_name(recs[i], name)
                    && attrs == said_attrs(recs[i]) && is_dir == (said_attrs(recs[i]) & 0x10 != 0)
                    && (version_three(recs[i]) ==> file_id_128 == Some(recs[i].subrange(8, 24))) && ((
                forall|j: int|
                    0 <= j < recs.len() && speaks_of(#[trigger] recs[j], f) ==> version_two(
                        recs[j],
                    )) ==> file_id_128 is None))
            } else {
                made.len() == 0
            }
        }),
{
    let f = said_file(recs[i]);
    let c = lemma_messages_of_file(journal_id, cursor, head, recs, i, creations_of(f));
    lemma_creations(c);
    lemma_happened(recs, f, 0x1000);
    lemma_happened(recs, f, 0x2000);
    lemma_happened(recs, f, 0x100);
    lemma_latest(recs, i);
    lemma_ids(recs, i);
    law_record_is_read_as_written(recs[i]);
}

/// A file is deleted once where a record says so, and not otherwise.
pub proof fn law_deleted_files_are_those_of_the_journal(
    journal_id: u64,
    cursor: i64,
    head: Seq<u8>,
    recs: Seq<Seq<u8>>,
    i: int,
)
    requires
        head.len() == 8,
        each_states_its_length(recs),
        last_word(recs, i),
    ensures
        ({
            let f = said_file(recs[i]);
            let out = watch_step_of(journal_id, cursor, head + in_a_row(recs)).1;
            out.filter(deletions_of(f)).len() == (if happened(recs, f, 0x200) {
                1int
            } else {
                0
            })
        }),
{
    let f = said_file(recs[i]);
    let c = lemma_messages_of_file(journal_id, cursor, head, recs, i, deletions_of(f));
    lemma_deletions(c);
    lemma_happened(recs, f, 0x200);
}

/// All messages about file `f`.
pub open spec fn messages_about(f: u64) -> spec_fn(UsnWatchMsgView) -> bool {
    |m: UsnWatchMsgView| file_of(m) == Some(f)
}

/// Where a file was deleted, that is the first that is said of it: a file that came under the same
/// number afterwards is not deleted by it.
pub proof fn law_deletion_comes_first(
    journal_id: u64,
    cursor: i64,
    head: Seq<u8>,
    recs: Seq<Seq<u8>>,
    i: int,
)
    requires
        head.len() == 8,
        each_states_its_length(recs),
        last_word(recs, i),
        happened(recs, said_file(recs[i]), 0x200),
    ensures
        ({
            let f = said_file(recs[i]);
            let own = watch_step_of(journal_id, cursor, head + in_a_row(recs)).1.filter(
                messages_about(f),
            );
            own.len() > 0 && (own[0] matches UsnWatchMsgView::Event(
                ChangeEventView::Delete { file_id },
            ) && file_id == f)
        }),
{
    let f = said_file(recs[i]);
    let p = messages_about(f);
    let c = lemma_messages_of_file(journal_id, cursor, head, recs, i, p);
    lemma_pick(c, p);
    lemma_happened(recs, f, 0x200);
    assert(p(own_deletion(c)));
}

/// The size and times of a file are read again once where it came, got its new name or changed;
/// those of a directory never.
pub proof fn law_changed_files_are_refreshed(
    journal_id: u64,
    cursor: i64,
    head: Seq<u8>,
    recs: Seq<Seq<u8>>,
    i: int,
)
    requires
        head.len() == 8,
        each_states_its_length(recs),
        last_word(recs, i),
    ensures
        ({
            let f = said_file(recs[i]);
            let out = watch_step_of(journal_id, cursor, head + in_a_row(recs)).1;
            let refreshes = out.filter(refreshes_of(f));
            let touched = happened(recs, f, 0x2000) || (!happened(recs, f, 0x1000) && (happened(
                recs,
                f,
                0x100,
            ) || happened(recs, f, 0x2) || happened(recs, f, 0x4) || happened(recs, f, 0x8000)));
            if touched && said_attrs(recs[i]) & 0x10 == 0 {
                refreshes.len() == 1 && (refreshes[0] matches UsnWatchMsgView::StatRefresh {
                    file_id,
                    file_id_128,
                } && file_id == f && (version_three(recs[i]) ==> file_id_128 == Some(
                    recs[i].subrange(8, 24),
                )) && ((forall|j: int|
                    0 <= j < recs.len() && speaks_of(#[trigger] recs[j], f) ==> version_two(
                        recs[j],
                    )) ==> file_id_128 is None))
            } else {
                refreshes.len() == 0
            }
        }),
{
    let f = said_file(recs[i]);
    let c = lemma_messages_of_file(journal_id, cursor, head, recs, i, refreshes_of(f));
    lemma_refreshes(c);
    lemma_happened(recs, f, 0x1000);
    lemma_happened(recs, f, 0x2000);
    lemma_happened(recs, f, 0x100);
    lemma_happened(recs, f, 0x2);
    lemma_happened(recs, f, 0x4);
    lemma_happened(recs, f, 0x8000);
    lemma_latest(recs, i);
    lemma_ids(recs, i);
    law_record_is_read_as_written(recs[i]);
}

proof fn lemma_readable_origin(recs: Seq<Seq<u8>>, k: int) -> (i: int)
    requires
        0 <= k < readable(recs).len(),
    ensures
        0 <= i < recs.len(),
        watch_rec(recs[i]) == Some(readable(recs)[k]),
    decreases recs.len(),
{
    if watch_rec(recs[0]) is Some && k == 0 {
        0
    } else {
        let rest = recs.drop_first();
        let i = lemma_readable_origin(rest, if watch_rec(recs[0]) is Some {
            k - 1
        } else {
            k
        });
        assert(rest[i] == recs[i + 1]);
        i + 1
    }
}

proof fn lemma_first_ref_origin(s: Seq<WatchRecView>, f: u64) -> (k: int)
    requires
        first_refs(s).contains(f),
    ensures
        0 <= k < s.len(),
        s[k].file_ref == f,
    decreases s.len(),
{
    let rest = first_refs(s.drop_last());
    if rest.contains(f) {
        lemma_first_ref_origin(s.drop_last(), f)
    } else {
        let k = choose|k: int| 0 <= k < first_refs(s).len() && first_refs(s)[k] == f;
        if k < rest.len() {
            assert(rest[k] == f);
        }
        s.len() - 1
    }
}

proof fn lemma_emitted_origin(s: Seq<WatchRecView>, k: int) -> (i: int)
    requires
        0 <= k < emitted_all(s).len(),
    ensures
        0 <= i < s.len(),
        file_of(emitted_all(s)[k]) == Some(s[i].file_ref),
    decreases s.len(),
{
    let rest = emitted_all(s.drop_last());
    if k < rest.len() {
        lemma_emitted_origin(s.drop_last(), k)
    } else {
        lemma_emitted_of(s.last(), k - rest.len());
        assert(emitted_all(s)[k] == emitted(s.last())[k - rest.len()]);
        s.len() - 1
    }
}

/// Every change that a read hands on is about a file of which some record of the read speaks.
pub proof fn law_no_change_without_a_record(
    journal_id: u64,
    cursor: i64,
    head: Seq<u8>,
    recs: Seq<Seq<u8>>,
    k: int,
) -> (i: int)
    requires
        head.len() == 8,
        each_states_its_length(recs),
        0 <= k < watch_step_of(journal_id, cursor, head + in_a_row(recs)).1.len() - 1,
    ensures
        0 <= i < recs.len(),
        legible(recs[i]),
        file_of(watch_step_of(journal_id, cursor, head + in_a_row(recs)).1[k]) == Some(
            said_file(recs[i]),
        ),
{
    law_records_are_found(head, recs);
    let all = readable(recs);
    let c = coalesced(all);
    law_coalesce(all);
    let at = lemma_emitted_origin(c, k);
    assert(refs(c)[at] == c[at].file_ref);
    assert(first_refs(all)[at] == c[at].file_ref);
    let n = lemma_first_ref_origin(all, c[at].file_ref);
    let i = lemma_readable_origin(recs, n);
    law_record_is_read_as_written(recs[i]);
    i
}

/// A read moves the position to the number in its first eight bytes and reports that number last,
/// under the journal that is watched.
pub proof fn law_read_moves_to_the_stated_position(journal_id: u64, cursor: i64, buf: Seq<u8>)
    ensures
        buf.len() >= 8 ==> watch_step_of(journal_id, cursor, buf).0 == bytes::i64_at(buf, 0)
            && watch_step_of(journal_id, cursor, buf).1.len() > 0 && watch_step_of(
            journal_id,
            cursor,
            buf,
        ).1.last() == (UsnWatchMsgView::Checkpoint {
            journal_id,
            next_usn: bytes::u64_at(buf, 0),
        }),
        buf.len() < 8 ==> watch_step_of(journal_id, cursor, buf).0 == cursor && watch_step_of(
            journal_id,
            cursor,
            buf,
        ).1.len() == 0,
{
    let n = bytes::u64_at(buf, 0);
    assert((n as i64) as u64 == n) by (bit_vector);
}

// ---- resuming -----------------------------------------------------------------------------

pub open spec fn id_changed_text(saved: u64, current: u64) -> Seq<char> {
    "USN Journal ID 已变化（"@ + text::decimal(saved as nat) + " -> "@ + text::decimal(
        current as nat,
    ) + "），请执行全量 index 重建"@
}

pub open spec fn overwritten_text(start_usn: u64, first_usn: i64) -> Seq<char> {
    "USN Journal 已覆写过游标（start_usn="@ + text::decimal(start_usn as nat) + " < FirstUsn="@
        + text::signed_decimal(first_usn as int)
        + "），中间变更已丢失，请执行全量 index 重建"@
}

/// Where reading starts: at the saved position, where the journal is the same one and still
/// reaches back to it; at the journal's end where nothing was saved; nowhere otherwise.
pub open spec fn start_of(resume: Option<UsnResume>, journal: UsnState) -> Result<i64, ErrorView> {
    match resume {
        None => Ok(journal.next_usn as i64),
        Some(r) => if r.journal_id != journal.journal_id {
            Err(ErrorView::JournalGap(id_changed_text(r.journal_id, journal.journal_id)))
        } else if (r.start_usn as i64) < journal.first_usn {
            Err(ErrorView::JournalGap(overwritten_text(r.start_usn, journal.first_usn)))
        } else {
            Ok(r.start_usn as i64)
        },
    }
}

pub open spec fn start_view(r: Result<i64, Error>) -> Result<i64, ErrorView> {
    match r {
        Ok(c) => Ok(c),
        Err(e) => Err(e@),
    }
}

/// The position at which a watcher starts to read, or why it cannot go on from the saved one.
pub fn start_cursor(resume: Option<UsnResume>, journal: UsnState) -> (r: Result<i64, Error>)
    ensures
        start_view(r) == start_of(resume, journal),
{
    match resume {
        None => Ok(journal.next_usn as i64),
        Some(saved) => {
            if saved.journal_id != journal.journal_id {
                let mut t = text::copied("USN Journal ID 已变化（");
                t.push_str(&text::decimal_text(saved.journal_id));
                t.push_str(" -> ");
                t.push_str(&text::decimal_text(journal.journal_id));
                t.push_str("），请执行全量 index 重建");
                return Err(Error::JournalGap(t));
            }
            if (saved.start_usn as i64) < journal.first_usn {
                let mut t = text::copied("USN Journal 已覆写过游标（start_usn=");
                t.push_str(&text::decimal_text(saved.start_usn));
                t.push_str(" < FirstUsn=");
                t.push_str(&text::signed_decimal_text(journal.first_usn));
                t.push_str("），中间变更已丢失，请执行全量 index 重建");
                return Err(Error::JournalGap(t));
            }
            Ok(saved.start_usn as i64)
        },
    }
}

/// `ERROR_JOURNAL_ENTRY_DELETED` as a result code.
pub const JOURNAL_ENTRY_DELETED: u32 = 0x8007_049A;

/// A journal read failed because the position has been overwritten.
pub fn is_journal_entry_deleted(code: u32) -> (r: bool)
    ensures
        r == (code == JOURNAL_ENTRY_DELETED),
{
    code == JOURNAL_ENTRY_DELETED
}

/// How a failed journal read is reported: an overwritten position is a gap, anything else a
/// platform failure with the platform's text.
pub fn read_failure(code: u32, detail: &str) -> (r: Error)
    ensures
        r@ == (if code == JOURNAL_ENTRY_DELETED {
            ErrorView::JournalGap(
                "USN Journal 已覆写过游标（ERROR_JOURNAL_ENTRY_DELETED），请执行全量 index 重建"@,
            )
        } else {
            ErrorView::Platform("FSCTL_READ_USN_JOURNAL 失败: "@ + detail@)
        }),
{
    if is_journal_entry_deleted(code) {
        Error::JournalGap(
            text::copied(
                "USN Journal 已覆写过游标（ERROR_JOURNAL_ENTRY_DELETED），请执行全量 index 重建",
            ),
        )
    } else {
        let mut t = text::copied("FSCTL_READ_USN_JOURNAL 失败: ");
        t.push_str(detail);
        Error::Platform(t)
    }
}

/// The parameters of one blocking journal read.
#[derive(Debug, Clone, Copy)]
pub struct ReadRequest {
    pub start_usn: i64,
    pub reason_mask: u32,
    pub return_only_on_close: u32,
    pub timeout: u64,
    pub bytes_to_wait_for: u64,
    pub journal_id: u64,
}

/// The read that is made at a position.
pub open spec fn read_at(journal_id: u64, cursor: i64) -> ReadRequest {
    let watched = REASON_FILE_CREATE | REASON_FILE_DELETE | REASON_RENAME_OLD_NAME
        | REASON_RENAME_NEW_NAME | REASON_DATA_EXTEND | REASON_DATA_TRUNCATION
        | REASON_BASIC_INFO_CHANGE;
    ReadRequest {
        start_usn: cursor,
        reason_mask: watched,
        return_only_on_close: 0,
        timeout: 2,
        bytes_to_wait_for: 65536,
        journal_id,
    }
}

/// A read begins where the watcher is, in its journal, and asks for every reason that a message can
/// come from: new and deleted files, both names of a rename, longer and shorter files, and changed
/// attributes or times. It does not wait for files to be closed.
pub proof fn law_read_asks_for_all_reasons(journal_id: u64, cursor: i64)
    ensures
        ({
            let r = read_at(journal_id, cursor);
            &&& r.start_usn == cursor && r.journal_id == journal_id
            &&& r.reason_mask == 0xB306
            &&& r.return_only_on_close == 0
            &&& r.timeout == 2 && r.bytes_to_wait_for == 0x1_0000
        }),
{
    assert(0x100u32 | 0x200u32 | 0x1000u32 | 0x2000u32 | 0x2u32 | 0x4u32 | 0x8000u32 == 0xB306u32)
        by (bit_vector);
}

/// The read that continues at `cursor`: all watched reasons, waiting up to two seconds for
/// 64 KiB.
pub fn read_request(journal_id: u64, cursor: i64) -> (r: ReadRequest)
    ensures
        r == read_at(journal_id, cursor),
        r == (ReadRequest {
            start_usn: cursor,
            reason_mask: REASON_FILE_CREATE | REASON_FILE_DELETE | REASON_RENAME_OLD_NAME
                | REASON_RENAME_NEW_NAME | REASON_DATA_EXTEND | REASON_DATA_TRUNCATION
                | REASON_BASIC_INFO_CHANGE,
            return_only_on_close: 0,
            timeout: 2,
            bytes_to_wait_for: 65536,
            journal_id,
        }),
{
    ReadRequest {
        start_usn: cursor,
        reason_mask: REASON_FILE_CREATE | REASON_FILE_DELETE | REASON_RENAME_OLD_NAME
            | REASON_RENAME_NEW_NAME | REASON_DATA_EXTEND | REASON_DATA_TRUNCATION
            | REASON_BASIC_INFO_CHANGE,
        return_only_on_close: 0,
        timeout: 2,
        bytes_to_wait_for: 65536,
        journal_id,
    }
}

/// A watcher of one journal: where it reads next.
#[derive(Debug, Clone, Copy, PartialEq, Eq, Structural)]
pub struct UsnWatch {
    pub journal_id: u64,
    pub cursor: i64,
}

/// Begins to watch a journal: at the saved position, or at its end where nothing was saved. Fails
/// where changes since the saved position are lost.
pub fn usn_watch_forever(resume: Option<UsnResume>, journal: UsnState) -> (r: Result<
    UsnWatch,
    Error,
>)
    ensures
        match r {
            Ok(w) => w.journal_id == journal.journal_id && start_of(resume, journal) == Ok::<
                i64,
                ErrorView,
            >(w.cursor),
            Err(e) => start_of(resume, journal) == Err::<i64, ErrorView>(e@),
        },
{
    match start_cursor(resume, journal) {
        Ok(cursor) => Ok(UsnWatch { journal_id: journal.journal_id, cursor }),
        Err(e) => Err(e),
    }
}

impl UsnWatch {
    /// The read to make next.
    pub fn request(&self) -> (r: ReadRequest)
        ensures
            r == read_at(self.journal_id, self.cursor),
            r.start_usn == self.cursor,
            r.journal_id == self.journal_id,
            r.reason_mask == REASON_FILE_CREATE | REASON_FILE_DELETE | REASON_RENAME_OLD_NAME
                | REASON_RENAME_NEW_NAME | REASON_DATA_EXTEND | REASON_DATA_TRUNCATION
                | REASON_BASIC_INFO_CHANGE,
            r.return_only_on_close == 0,
            r.timeout == 2,
            r.bytes_to_wait_for == 65536,
    {
        read_request(self.journal_id, self.cursor)
    }

    /// Takes in what a read gave; the messages are to be sent in their order.
    pub fn on_read(&mut self, buf: &[u8]) -> (r: Vec<UsnWatchMsg>)
        ensures
            final(self).journal_id == old(self).journal_id,
            (final(self).cursor, messages(r@)) == watch_step_of(
                old(self).journal_id,
                old(self).cursor,
                buf@,
            ),
    {
        let (cursor, out) = watch_step(self.journal_id, self.cursor, buf);
        self.cursor = cursor;
        out
    }
}

/// A restart at the position of the last message that reported one goes on exactly where the
/// watcher was, as long as the journal reaches back that far.
pub proof fn law_checkpoint_resumes(w: UsnWatch, buf: Seq<u8>, journal: UsnState)
    requires
        buf.len() >= 8,
        journal.journal_id == w.journal_id,
        journal.first_usn <= bytes::i64_at(buf, 0),
    ensures
        ({
            let (cursor, out) = watch_step_of(w.journal_id, w.cursor, buf);
            &&& out.last() matches UsnWatchMsgView::Checkpoint { journal_id, next_usn } && start_of(
                Some(UsnResume { journal_id, start_usn: next_usn }),
                journal,
            ) == Ok::<i64, ErrorView>(cursor)
        }),
{
    let next = bytes::i64_at(buf, 0);
    assert((next as u64) as i64 == next) by (bit_vector);
}

// ---- journal size and file table extents --------------------------------------------------

/// The journal size to ask for: it covers weeks of changes.
pub const JOURNAL_MAXIMUM_SIZE: u64 = 536_870_912;
pub const JOURNAL_ALLOCATION_DELTA: u64 = 67_108_864;

/// What to do about a volume's journal.
#[derive(Debug, Clone, Copy, PartialEq, Eq, Structural)]
pub enum JournalAction {
    Keep,
    Create,
    Grow,
}

/// What is done about a journal of that size.
pub open spec fn journal_action(maximum_size: Option<u64>) -> JournalAction {
    match maximum_size {
        Some(m) if m >= JOURNAL_MAXIMUM_SIZE => JournalAction::Keep,
        Some(_) => JournalAction::Grow,
        None => JournalAction::Create,
    }
}

/// A journal is to hold 512 MiB: one that is missing is created, a smaller one grown, any other left.
pub proof fn law_size_of_the_journal(m: u64)
    ensures
        journal_action(None) is Create,
        journal_action(Some(m)) is Grow <==> m < 512 * 1024 * 1024,
        journal_action(Some(m)) is Keep <==> m >= 512 * 1024 * 1024,
{
}

/// A missing journal is created, one that is too small is grown, and none is ever shrunk.
pub fn ensure_usn_journal(maximum_size: Option<u64>) -> (r: JournalAction)
    ensures
        r == journal_action(maximum_size),
        r == (match maximum_size {
            None => JournalAction::Create,
            Some(m) => if m < JOURNAL_MAXIMUM_SIZE {
                JournalAction::Grow
            } else {
                JournalAction::Keep
            },
        }),
{
    match maximum_size {
        None => JournalAction::Create,
        Some(m) => if m < JOURNAL_MAXIMUM_SIZE {
            JournalAction::Grow
        } else {
            JournalAction::Keep
        },
    }
}

/// Whether the journal was changed: never where the volume could not be opened or the journal was
/// left alone, otherwise as the request went. A refusal is no failure.
pub fn journal_changed(opened: bool, action: JournalAction, accepted: bool) -> (r: bool)
    ensures
        r == (opened && action != JournalAction::Keep && accepted),
{
    opened && action != JournalAction::Keep && accepted
}

/// How far the walk over the extents of the file table has come.
#[derive(Debug, Clone, Copy, PartialEq, Eq, Structural)]
pub struct ExtentWalk {
    pub total: u64,
    pub start_vcn: i64,
    pub done: bool,
}

/// More extents than this are not counted.
pub const EXTENT_LIMIT: u64 = 100_000;

/// The walk after one answer of the volume: `bytes` as returned, nothing where the request
/// failed. An answer states its number of extents in its first four bytes; the extents follow at
/// offset 16, each with the number of the cluster after it.
pub open spec fn extent_walk_after(w: ExtentWalk, answer: Option<Seq<u8>>) -> ExtentWalk {
    match answer {
        None => ExtentWalk { done: true, ..w },
        Some(b) => if b.len() < 32 || bytes::u32_at(b, 0) == 0 {
            ExtentWalk { done: true, ..w }
        } else {
            let n = bytes::u32_at(b, 0);
            let at = 16 + (n - 1) * 16;
            let total = (w.total + n) as u64;
            if at + 8 > b.len() || bytes::i64_at(b, at) <= w.start_vcn {
                ExtentWalk { total, start_vcn: w.start_vcn, done: true }
            } else {
                ExtentWalk {
                    total,
                    start_vcn: bytes::i64_at(b, at),
                    done: total > EXTENT_LIMIT,
                }
            }
        },
    }
}

pub open spec fn opt_bytes(b: Option<&Vec<u8>>) -> Option<Seq<u8>> {
    match b {
        Some(v) => Some(v@),
        None => None,
    }
}

/// Takes in one answer about the extents of the file table.
pub fn mft_extent_count(w: ExtentWalk, answer: Option<&Vec<u8>>) -> (r: ExtentWalk)
    requires
        w.total <= EXTENT_LIMIT,
    ensures
        r == extent_walk_after(w, opt_bytes(answer)),
{
    match answer {
        None => ExtentWalk { total: w.total, start_vcn: w.start_vcn, done: true },
        Some(b) => {
            if b.len() < 32 {
                return ExtentWalk { total: w.total, start_vcn: w.start_vcn, done: true };
            }
            let n: u32 = bytes::read_u32(b, 0);
            if n == 0 {
                return ExtentWalk { total: w.total, start_vcn: w.start_vcn, done: true };
            }
            let total: u64 = w.total + n as u64;
            let at: u64 = 16 + (n as u64 - 1) * 16;
            if at + 8 > b.len() as u64 {
                return ExtentWalk { total, start_vcn: w.start_vcn, done: true };
            }
            let next: i64 = bytes::read_i64(b, at as usize);
            if next <= w.start_vcn {
                return ExtentWalk { total, start_vcn: w.start_vcn, done: true };
            }
            ExtentWalk { total, start_vcn: next, done: total > EXTENT_LIMIT }
        },
    }
}

/// The walk comes to an end: every answer ends it or moves it on, and it never counts much past
/// the limit.
pub proof fn law_extent_walk_moves_on(w: ExtentWalk, answer: Option<Seq<u8>>)
    ensures
        extent_walk_after(w, answer).done || extent_walk_after(w, answer).start_vcn > w.start_vcn,
        !extent_walk_after(w, answer).done ==> extent_walk_after(w, answer).total <= EXTENT_LIMIT,
{
}

/// A file table in more pieces than this is worth a warning.
pub fn table_is_fragmented(extents: u64) -> (r: bool)
    ensures
        r == (extents > 64),
{
    extents > 64
}

} // verus!
