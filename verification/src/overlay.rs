//! The checkpoint file `<index>.overlay.bin`: sizes and times that the backfill has already
//! found, so that an interrupted backfill goes on where it stopped.
//!
//! The layout is little-endian: a magic number (32 bits), a version (32 bits), the number of
//! entries of the index (64 bits), the number of records (64 bits), and the records of 24 bytes
//! each: entry number, size, modification and creation time in seconds.
use vstd::prelude::*;
use crate::bytes;
use crate::text;

verus! {

pub const OVERLAY_MAGIC: u32 = 0x4658_4F56;

pub const OVERLAY_VERSION: u32 = 1;

/// The length of the header.
pub const HEADER_LEN: usize = 24;

/// The length of one record.
pub const RECORD_LEN: usize = 24;

/// What the backfill found about one entry; the times are seconds since 1970.
#[derive(Debug, Clone, Copy, PartialEq, Eq, Structural)]
pub struct OverlayRec {
    pub idx: u64,
    pub size: u64,
    pub mtime_secs: u32,
    pub ctime_secs: u32,
}

/// What a checkpoint file holds for an index.
#[derive(Debug)]
pub enum SidecarRead {
    /// The file is cut short: nothing is loaded, the file stays.
    Incomplete,
    /// The file is of another format, version or index: it is to be deleted.
    Stale,
    /// The records of the file.
    Loaded(Vec<OverlayRec>),
}

pub enum SidecarReadView {
    Incomplete,
    Stale,
    Loaded(Seq<OverlayRec>),
}

impl View for SidecarRead {
    type V = SidecarReadView;

    open spec fn view(&self) -> SidecarReadView {
        match *self {
            SidecarRead::Incomplete => SidecarReadView::Incomplete,
            SidecarRead::Stale => SidecarReadView::Stale,
            SidecarRead::Loaded(v) => SidecarReadView::Loaded(v@),
        }
    }
}

pub open spec fn record_bytes(r: OverlayRec) -> Seq<u8> {
    bytes::u64_bytes(r.idx) + bytes::u64_bytes(r.size) + bytes::u32_bytes(r.mtime_secs)
        + bytes::u32_bytes(r.ctime_secs)
}

pub open spec fn records_bytes(recs: Seq<OverlayRec>) -> Seq<u8>
    decreases recs.len(),
{
    if recs.len() == 0 {
        Seq::empty()
    } else {
        records_bytes(recs.drop_last()) + record_bytes(recs.last())
    }
}

pub open spec fn header_bytes(entry_count: u64, count: u64) -> Seq<u8> {
    bytes::u32_bytes(OVERLAY_MAGIC) + bytes::u32_bytes(OVERLAY_VERSION) + bytes::u64_bytes(
        entry_count,
    ) + bytes::u64_bytes(count)
}

/// The whole checkpoint file for an index of `entry_count` entries.
pub open spec fn sidecar_bytes(entry_count: u64, recs: Seq<OverlayRec>) -> Seq<u8> {
    header_bytes(entry_count, recs.len() as u64) + records_bytes(recs)
}

/// The record at offset `o`.
pub open spec fn record_at(b: Seq<u8>, o: int) -> OverlayRec {
    OverlayRec {
        idx: bytes::u64_at(b, o),
        size: bytes::u64_at(b, o + 8),
        mtime_secs: bytes::u32_at(b, o + 16),
        ctime_secs: bytes::u32_at(b, o + 20),
    }
}

/// What the file `b` says to an index of `entry_count` entries.
pub open spec fn sidecar_read(b: Seq<u8>, entry_count: u64) -> SidecarReadView {
    if b.len() < HEADER_LEN {
        SidecarReadView::Incomplete
    } else if bytes::u32_at(b, 0) != OVERLAY_MAGIC || bytes::u32_at(b, 4) != OVERLAY_VERSION
        || bytes::u64_at(b, 8) != entry_count {
        SidecarReadView::Stale
    } else if b.len() < HEADER_LEN + bytes::u64_at(b, 16) * RECORD_LEN {
        SidecarReadView::Incomplete
    } else {
        SidecarReadView::Loaded(
            Seq::new(
                bytes::u64_at(b, 16) as nat,
                |i: int| record_at(b, HEADER_LEN + i * RECORD_LEN),
            ),
        )
    }
}

/// Writes the checkpoint file for an index of `entry_count` entries.
pub fn encode_sidecar(entry_count: u64, recs: &Vec<OverlayRec>) -> (r: Vec<u8>)
    ensures
        r@ == sidecar_bytes(entry_count, recs@),
{
    let mut out: Vec<u8> = Vec::new();
    bytes::push_u32(&mut out, OVERLAY_MAGIC);
    bytes::push_u32(&mut out, OVERLAY_VERSION);
    bytes::push_u64(&mut out, entry_count);
    bytes::push_u64(&mut out, recs.len() as u64);
    let ghost head = header_bytes(entry_count, recs@.len() as u64);
    assert(out@ =~= head);
    assert(recs@.take(0) =~= Seq::empty());
    assert(out@ =~= head + records_bytes(recs@.take(0)));
    let mut i: usize = 0;
    while i < recs.len()
        invariant
            i <= recs.len(),
            out@ == head + records_bytes(recs@.take(i as int)),
        decreases recs.len() - i,
    {
        let ghost before = out@;
        let rec = recs[i];
        bytes::push_u64(&mut out, rec.idx);
        bytes::push_u64(&mut out, rec.size);
        bytes::push_u32(&mut out, rec.mtime_secs);
        bytes::push_u32(&mut out, rec.ctime_secs);
        proof {
            assert(out@ =~= before + record_bytes(rec));
            assert(recs@.take(i + 1).drop_last() =~= recs@.take(i as int));
            assert(recs@.take(i + 1).last() == rec);
            assert(out@ =~= head + records_bytes(recs@.take(i + 1)));
        }
        i += 1;
    }
    assert(recs@.take(recs@.len() as int) =~= recs@);
    out
}

fn read_record(b: &[u8], o: usize) -> (r: OverlayRec)
    requires
        o + RECORD_LEN <= b@.len(),
    ensures
        r == record_at(b@, o as int),
{
    let n: usize = b.len();
    assert(o + RECORD_LEN <= n);
    OverlayRec {
        idx: bytes::read_u64(b, o),
        size: bytes::read_u64(b, o + 8),
        mtime_secs: bytes::read_u32(b, o + 16),
        ctime_secs: bytes::read_u32(b, o + 20),
    }
}

/// Reads a checkpoint file for an index that now has `entry_count` entries.
pub fn decode_sidecar(b: &[u8], entry_count: u64) -> (r: SidecarRead)
    ensures
        r@ == sidecar_read(b@, entry_count),
{
    let n: usize = b.len();
    if n < HEADER_LEN {
        return SidecarRead::Incomplete;
    }
    if bytes::read_u32(b, 0) != OVERLAY_MAGIC || bytes::read_u32(b, 4) != OVERLAY_VERSION
        || bytes::read_u64(b, 8) != entry_count {
        return SidecarRead::Stale;
    }
    let count: u64 = bytes::read_u64(b, 16);
    let room: u64 = ((n - HEADER_LEN) / RECORD_LEN) as u64;
    if count > room {
        return SidecarRead::Incomplete;
    }
    let mut out: Vec<OverlayRec> = Vec::new();
    let mut i: usize = 0;
    while i < count as usize
        invariant
            n == b@.len(),
            count * RECORD_LEN + HEADER_LEN <= n,
            i <= count,
            out@ == Seq::new(i as nat, |k: int| record_at(b@, HEADER_LEN + k * RECORD_LEN)),
        decreases count - i,
    {
        let rec = read_record(b, HEADER_LEN + i * RECORD_LEN);
        out.push(rec);
        proof {
            assert(out@ =~= Seq::new(
                (i + 1) as nat,
                |k: int| record_at(b@, HEADER_LEN + k * RECORD_LEN),
            ));
        }
        i += 1;
    }
    SidecarRead::Loaded(out)
}

/// The checkpoint file beside an index file.
pub open spec fn sidecar_path(index: Seq<char>) -> Seq<char> {
    index + ".overlay.bin"@
}

pub fn overlay_sidecar_path(index_path: &str) -> (r: String)
    ensures
        r@ == sidecar_path(index_path@),
{
    let mut p = text::copied(index_path);
    p.push_str(".overlay.bin");
    p
}

// ---- laws ---------------------------------------------------------------------------------

proof fn lemma_record_len(r: OverlayRec)
    ensures
        record_bytes(r).len() == RECORD_LEN,
{
    bytes::law_u64_round_trip(r.idx);
    bytes::law_u64_round_trip(r.size);
}

proof fn lemma_records_len(recs: Seq<OverlayRec>)
    ensures
        records_bytes(recs).len() == recs.len() * RECORD_LEN,
    decreases recs.len(),
{
    if recs.len() > 0 {
        lemma_records_len(recs.drop_last());
        lemma_record_len(recs.last());
    }
}

proof fn lemma_read_within(b: Seq<u8>, part: Seq<u8>, at: int)
    requires
        0 <= at,
        at + part.len() <= b.len(),
        b.subrange(at, at + part.len()) == part,
    ensures
        part.len() == 4 ==> bytes::u32_at(b, at) == bytes::u32_at(part, 0),
        part.len() == 8 ==> bytes::u64_at(b, at) == bytes::u64_at(part, 0),
{
    assert(part.subrange(0, part.len() as int) =~= part);
    bytes::lemma_read_shifted(b, part, at, 0);
}

/// What stands at `lo` inside a part of `b` stands at `at + lo` in `b`.
proof fn lemma_piece(b: Seq<u8>, part: Seq<u8>, at: int, lo: int, piece: Seq<u8>)
    requires
        0 <= at,
        at + part.len() <= b.len(),
        b.subrange(at, at + part.len()) == part,
        0 <= lo,
        lo + piece.len() <= part.len(),
        part.subrange(lo, lo + piece.len()) == piece,
    ensures
        b.subrange(at + lo, at + lo + piece.len()) == piece,
{
    assert(b.subrange(at + lo, at + lo + piece.len()) =~= piece) by {
        assert forall|k: int| 0 <= k < piece.len() implies b[at + lo + k] == piece[k] by {
            assert(part.subrange(lo, lo + piece.len())[k] == part[lo + k]);
            assert(b.subrange(at, at + part.len())[lo + k] == b[at + (lo + k)]);
        }
    }
}

/// The four fields of a record stand one after the other.
proof fn lemma_record_pieces(r: OverlayRec)
    ensures
        record_bytes(r).len() == RECORD_LEN,
        record_bytes(r).subrange(0, 8) == bytes::u64_bytes(r.idx),
        record_bytes(r).subrange(8, 16) == bytes::u64_bytes(r.size),
        record_bytes(r).subrange(16, 20) == bytes::u32_bytes(r.mtime_secs),
        record_bytes(r).subrange(20, 24) == bytes::u32_bytes(r.ctime_secs),
{
    lemma_record_len(r);
    bytes::law_u64_round_trip(r.idx);
    bytes::law_u64_round_trip(r.size);
    bytes::law_u32_round_trip(r.mtime_secs);
    bytes::law_u32_round_trip(r.ctime_secs);
    assert(record_bytes(r).subrange(0, 8) =~= bytes::u64_bytes(r.idx));
    assert(record_bytes(r).subrange(8, 16) =~= bytes::u64_bytes(r.size));
    assert(record_bytes(r).subrange(16, 20) =~= bytes::u32_bytes(r.mtime_secs));
    assert(record_bytes(r).subrange(20, 24) =~= bytes::u32_bytes(r.ctime_secs));
}

proof fn lemma_record_within(b: Seq<u8>, r: OverlayRec, at: int)
    requires
        0 <= at,
        at + RECORD_LEN <= b.len(),
        b.subrange(at, at + RECORD_LEN) == record_bytes(r),
    ensures
        record_at(b, at) == r,
{
    let p = record_bytes(r);
    lemma_record_pieces(r);
    bytes::law_u64_round_trip(r.idx);
    bytes::law_u64_round_trip(r.size);
    bytes::law_u32_round_trip(r.mtime_secs);
    bytes::law_u32_round_trip(r.ctime_secs);
    lemma_piece(b, p, at, 0, bytes::u64_bytes(r.idx));
    lemma_piece(b, p, at, 8, bytes::u64_bytes(r.size));
    lemma_piece(b, p, at, 16, bytes::u32_bytes(r.mtime_secs));
    lemma_piece(b, p, at, 20, bytes::u32_bytes(r.ctime_secs));
    lemma_read_within(b, bytes::u64_bytes(r.idx), at);
    lemma_read_within(b, bytes::u64_bytes(r.size), at + 8);
    lemma_read_within(b, bytes::u32_bytes(r.mtime_secs), at + 16);
    lemma_read_within(b, bytes::u32_bytes(r.ctime_secs), at + 20);
}

/// The record number `i` stands at its own place among the records.
proof fn lemma_record_place(recs: Seq<OverlayRec>, i: int)
    requires
        0 <= i < recs.len(),
    ensures
        records_bytes(recs).len() == recs.len() * RECORD_LEN,
        (i + 1) * RECORD_LEN <= recs.len() * RECORD_LEN,
        records_bytes(recs).subrange(i * RECORD_LEN, (i + 1) * RECORD_LEN) == record_bytes(recs[i]),
    decreases recs.len(),
{
    let init = recs.drop_last();
    lemma_records_len(recs);
    lemma_records_len(init);
    lemma_record_len(recs.last());
    if i == recs.len() - 1 {
        assert(records_bytes(recs).subrange(i * RECORD_LEN, (i + 1) * RECORD_LEN) =~= record_bytes(
            recs[i],
        ));
    } else {
        lemma_record_place(init, i);
        assert(init[i] == recs[i]);
        assert(records_bytes(recs).subrange(i * RECORD_LEN, (i + 1) * RECORD_LEN)
            =~= records_bytes(init).subrange(i * RECORD_LEN, (i + 1) * RECORD_LEN));
    }
}

proof fn lemma_header(entry_count: u64, count: u64, rest: Seq<u8>)
    ensures
        header_bytes(entry_count, count).len() == HEADER_LEN,
        ({
            let b = header_bytes(entry_count, count) + rest;
            &&& bytes::u32_at(b, 0) == OVERLAY_MAGIC
            &&& bytes::u32_at(b, 4) == OVERLAY_VERSION
            &&& bytes::u64_at(b, 8) == entry_count
            &&& bytes::u64_at(b, 16) == count
        }),
{
    let m = bytes::u32_bytes(OVERLAY_MAGIC);
    let v = bytes::u32_bytes(OVERLAY_VERSION);
    let e = bytes::u64_bytes(entry_count);
    let c = bytes::u64_bytes(count);
    bytes::law_u32_round_trip(OVERLAY_MAGIC);
    bytes::law_u32_round_trip(OVERLAY_VERSION);
    bytes::law_u64_round_trip(entry_count);
    bytes::law_u64_round_trip(count);
    let b = header_bytes(entry_count, count) + rest;
    assert(b.subrange(0, 4) =~= m);
    assert(b.subrange(4, 8) =~= v);
    assert(b.subrange(8, 16) =~= e);
    assert(b.subrange(16, 24) =~= c);
    lemma_read_within(b, m, 0);
    lemma_read_within(b, v, 4);
    lemma_read_within(b, e, 8);
    lemma_read_within(b, c, 16);
}

/// A checkpoint that was written is read back record for record, by an index that still has the
/// same number of entries.
pub proof fn law_sidecar_round_trip(entry_count: u64, recs: Seq<OverlayRec>)
    requires
        recs.len() <= u64::MAX,
    ensures
        sidecar_read(sidecar_bytes(entry_count, recs), entry_count) == SidecarReadView::Loaded(
            recs,
        ),
{
    let b = sidecar_bytes(entry_count, recs);
    lemma_header(entry_count, recs.len() as u64, records_bytes(recs));
    lemma_records_len(recs);
    let read = Seq::new(
        bytes::u64_at(b, 16) as nat,
        |i: int| record_at(b, HEADER_LEN + i * RECORD_LEN),
    );
    assert forall|i: int| 0 <= i < recs.len() implies #[trigger] read[i] == recs[i] by {
        lemma_record_place(recs, i);
        let at = HEADER_LEN + i * RECORD_LEN;
        assert(b.subrange(at, at + RECORD_LEN) =~= records_bytes(recs).subrange(
            i * RECORD_LEN,
            (i + 1) * RECORD_LEN,
        ));
        lemma_record_within(b, recs[i], at);
    }
    assert(read =~= recs);
}

/// A checkpoint of an index with another number of entries is thrown away, whatever it holds.
pub proof fn law_sidecar_of_another_index(entry_count: u64, other: u64, recs: Seq<OverlayRec>)
    requires
        recs.len() <= u64::MAX,
        other != entry_count,
    ensures
        sidecar_read(sidecar_bytes(entry_count, recs), other) == SidecarReadView::Stale,
{
    lemma_header(entry_count, recs.len() as u64, records_bytes(recs));
}

/// A checkpoint that lost bytes at its end yields no records at all.
pub proof fn law_sidecar_cut_short(entry_count: u64, recs: Seq<OverlayRec>, n: int)
    requires
        recs.len() <= u64::MAX,
        0 <= n < sidecar_bytes(entry_count, recs).len(),
    ensures
        sidecar_read(sidecar_bytes(entry_count, recs).take(n), entry_count)
            == SidecarReadView::Incomplete,
{
    let b = sidecar_bytes(entry_count, recs);
    let c = b.take(n);
    lemma_records_len(recs);
    lemma_header(entry_count, recs.len() as u64, records_bytes(recs));
    if n >= HEADER_LEN {
        let head = header_bytes(entry_count, recs.len() as u64);
        assert(c =~= head + c.subrange(HEADER_LEN as int, n));
        lemma_header(entry_count, recs.len() as u64, c.subrange(HEADER_LEN as int, n));
    }
}

/// Where everything stands in the file: the letters `VOXF` as a number, the version, the number of
/// entries of the index and of the records; then each record with the number of its entry, its
/// size, and the times of its last change and of its creation.
pub proof fn law_sidecar_layout(entry_count: u64, recs: Seq<OverlayRec>, i: int)
    requires
        recs.len() <= u64::MAX,
        0 <= i < recs.len(),
    ensures
        ({
            let b = sidecar_bytes(entry_count, recs);
            let at = 24 + 24 * i;
            &&& b.len() == 24 + 24 * recs.len()
            &&& bytes::u32_at(b, 0) == 0x4658_4F56
            &&& bytes::u32_at(b, 4) == 1
            &&& bytes::u64_at(b, 8) == entry_count
            &&& bytes::u64_at(b, 16) == recs.len()
            &&& bytes::u64_at(b, at) == recs[i].idx
            &&& bytes::u64_at(b, at + 8) == recs[i].size
            &&& bytes::u32_at(b, at + 16) == recs[i].mtime_secs
            &&& bytes::u32_at(b, at + 20) == recs[i].ctime_secs
        }),
{
    let b = sidecar_bytes(entry_count, recs);
    let at = 24 + 24 * i;
    lemma_header(entry_count, recs.len() as u64, records_bytes(recs));
    lemma_record_place(recs, i);
    assert(b.subrange(at, at + 24) =~= records_bytes(recs).subrange(24 * i, 24 * i + 24));
    let r = recs[i];
    let p = record_bytes(r);
    lemma_record_pieces(r);
    bytes::law_u64_round_trip(r.idx);
    bytes::law_u64_round_trip(r.size);
    bytes::law_u32_round_trip(r.mtime_secs);
    bytes::law_u32_round_trip(r.ctime_secs);
    lemma_piece(b, p, at, 0, bytes::u64_bytes(r.idx));
    lemma_piece(b, p, at, 8, bytes::u64_bytes(r.size));
    lemma_piece(b, p, at, 16, bytes::u32_bytes(r.mtime_secs));
    lemma_piece(b, p, at, 20, bytes::u32_bytes(r.ctime_secs));
    lemma_read_within(b, bytes::u64_bytes(r.idx), at);
    lemma_read_within(b, bytes::u64_bytes(r.size), at + 8);
    lemma_read_within(b, bytes::u32_bytes(r.mtime_secs), at + 16);
    lemma_read_within(b, bytes::u32_bytes(r.ctime_secs), at + 20);
}

/// A file with another mark or version is thrown away; the checkpoint stands beside its index.
pub proof fn law_foreign_sidecars_are_stale(b: Seq<u8>, entry_count: u64, index: Seq<char>)
    requires
        b.len() >= 24,
        bytes::u32_at(b, 0) != 0x4658_4F56 || bytes::u32_at(b, 4) != 1 || bytes::u64_at(b, 8)
            != entry_count,
    ensures
        sidecar_read(b, entry_count) == SidecarReadView::Stale,
        sidecar_path(index).len() == index.len() + 12,
        sidecar_path(index).take(index.len() as int) == index,
{
    reveal_strlit(".overlay.bin");
    assert(sidecar_path(index).take(index.len() as int) =~= index);
}

} // verus!
