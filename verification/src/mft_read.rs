//! Records of the NTFS master file table: sizes and times read straight from the table.
use vstd::prelude::*;
use std::collections::HashMap;
use crate::bytes;

verus! {

broadcast use vstd::std_specs::hash::group_hash_axioms;

pub const DEFAULT_RECORD_SIZE: usize = 1024;
pub const READ_BUF_SIZE: u64 = 67_108_864;
pub const ATTR_STANDARD_INFORMATION: u32 = 0x10;
pub const ATTR_DATA: u32 = 0x80;
pub const ATTR_END: u32 = 0xFFFF_FFFF;
pub const RECORD_NUMBER_MASK: u64 = 0x0000_FFFF_FFFF_FFFF;

/// Size and times of one record.
#[derive(Debug, Clone, Copy, PartialEq, Eq, Structural)]
pub struct MftMeta {
    pub size: u64,
    pub mtime: u64,
    pub ctime: u64,
}

/// The offsets of the attributes of a record from `off` on: each states its kind and its length;
/// the run ends at an end mark or at a length that is too small or does not fit.
pub open spec fn attributes(rec: Seq<u8>, off: int) -> Seq<int>
    decreases rec.len() - off,
{
    if off < 0 || off + 8 > rec.len() {
        Seq::empty()
    } else {
        let kind = bytes::u32_at(rec, off);
        let n = bytes::u32_at(rec, off + 4) as int;
        if kind == 0 || kind == ATTR_END || n < 24 || off + n > rec.len() {
            Seq::empty()
        } else {
            seq![off] + attributes(rec, off + n)
        }
    }
}

/// The modification and creation times that the attribute at `off` states, where it is a resident
/// standard information attribute with a whole time block inside the record.
pub open spec fn times_at(rec: Seq<u8>, off: int) -> Option<(u64, u64)> {
    let at = off + bytes::u16_at(rec, off + 20);
    if bytes::u32_at(rec, off) == ATTR_STANDARD_INFORMATION && rec[off + 8] == 0 && bytes::u32_at(
        rec,
        off + 16,
    ) >= 48 && at + 48 <= rec.len() {
        Some((bytes::u64_at(rec, at + 8), bytes::u64_at(rec, at)))
    } else {
        None
    }
}

/// The file size that the attribute at `off` states, where it is a data attribute: the length of
/// its contents where they are resident, else its stated real size.
pub open spec fn size_at(rec: Seq<u8>, off: int) -> Option<u64> {
    if bytes::u32_at(rec, off) != ATTR_DATA {
        None
    } else if rec[off + 8] == 0 {
        Some(bytes::u32_at(rec, off + 16) as u64)
    } else if bytes::u32_at(rec, off + 4) >= 0x38 {
        Some(bytes::u64_at(rec, off + 0x30))
    } else {
        None
    }
}

/// The last times that any of the attributes states.
pub open spec fn last_times(rec: Seq<u8>, attrs: Seq<int>) -> Option<(u64, u64)>
    decreases attrs.len(),
{
    if attrs.len() == 0 {
        None
    } else if times_at(rec, attrs.last()) is Some {
        times_at(rec, attrs.last())
    } else {
        last_times(rec, attrs.drop_last())
    }
}

/// The last size that any of the attributes states, or zero.
pub open spec fn last_size(rec: Seq<u8>, attrs: Seq<int>) -> u64
    decreases attrs.len(),
{
    if attrs.len() == 0 {
        0
    } else {
        match size_at(rec, attrs.last()) {
            Some(n) => n,
            None => last_size(rec, attrs.drop_last()),
        }
    }
}

/// The record carries the `FILE` signature and is in use.
pub open spec fn live_record(rec: Seq<u8>) -> bool {
    &&& rec.len() >= 42
    &&& rec[0] == 70
    &&& rec[1] == 73
    &&& rec[2] == 76
    &&& rec[3] == 69
    &&& bytes::u16_at(rec, 0x16) & 1 != 0
}

/// Size and times of a record in use that states its times.
pub open spec fn record_meta(rec: Seq<u8>) -> Option<MftMeta> {
    if !live_record(rec) {
        None
    } else {
        let attrs = attributes(rec, bytes::u16_at(rec, 0x14) as int);
        match last_times(rec, attrs) {
            None => None,
            Some((mtime, ctime)) => Some(MftMeta { size: last_size(rec, attrs), mtime, ctime }),
        }
    }
}

proof fn lemma_attributes_step(rec: Seq<u8>, off: int)
    requires
        attributes(rec, off).len() > 0,
    ensures
        attributes(rec, off)[0] == off,
        0 <= off,
        off + 24 <= off + bytes::u32_at(rec, off + 4) <= rec.len(),
        attributes(rec, off).drop_first() == attributes(rec, off + bytes::u32_at(rec, off + 4)),
{
    assert(attributes(rec, off).drop_first() =~= attributes(
        rec,
        off + bytes::u32_at(rec, off + 4),
    ));
}

/// Reads size and times of one record; nothing for a record that is free, damaged or states no
/// times.
pub fn parse_mft_record_for_meta(rec: &[u8]) -> (r: Option<MftMeta>)
    ensures
        r == record_meta(rec@),
{
    let n: usize = rec.len();
    if n < 42 {
        return None;
    }
    if rec[0] != 70 || rec[1] != 73 || rec[2] != 76 || rec[3] != 69 {
        return None;
    }
    if bytes::read_u16(rec, 0x16) & 1 == 0 {
        return None;
    }
    let mut off: usize = bytes::read_u16(rec, 0x14) as usize;
    let mut size: u64 = 0;
    let mut mtime: u64 = 0;
    let mut ctime: u64 = 0;
    let mut found = false;
    let ghost all = attributes(rec@, off as int);
    let ghost mut done: Seq<int> = Seq::empty();
    proof {
        assert(done + all =~= all);
    }
    while off <= n && n - off >= 8
        invariant_except_break
            n == rec@.len(),
            done + attributes(rec@, off as int) == all,
            size == last_size(rec@, done),
            found == (last_times(rec@, done) is Some),
            found ==> last_times(rec@, done) == Some((mtime, ctime)),
        ensures
            size == last_size(rec@, all),
            found == (last_times(rec@, all) is Some),
            found ==> last_times(rec@, all) == Some((mtime, ctime)),
        decreases n - off,
    {
        let kind: u32 = bytes::read_u32(rec, off);
        let len: u32 = bytes::read_u32(rec, off + 4);
        if kind == 0 || kind == ATTR_END || len < 24 || len as u64 > (n - off) as u64 {
            proof {
                assert(attributes(rec@, off as int) =~= Seq::empty());
                assert(done =~= all);
            }
            break;
        }
        let ghost rest = attributes(rec@, off as int);
        proof {
            lemma_attributes_step(rec@, off as int);
            assert(done.push(off as int).drop_last() =~= done);
            assert(done.push(off as int) + rest.drop_first() =~= done + rest);
            done = done.push(off as int);
        }
        if kind == ATTR_STANDARD_INFORMATION {
            if rec[off + 8] == 0 {
                let content_size: u32 = bytes::read_u32(rec, off + 16);
                let shift: usize = bytes::read_u16(rec, off + 20) as usize;
                if shift <= n - off && n - off - shift >= 48 && content_size >= 48 {
                    let at: usize = off + shift;
                    ctime = bytes::read_u64(rec, at);
                    mtime = bytes::read_u64(rec, at + 8);
                    found = true;
                }
            }
        } else if kind == ATTR_DATA {
            if rec[off + 8] == 0 {
                size = bytes::read_u32(rec, off + 16) as u64;
            } else if len >= 0x38 {
                size = bytes::read_u64(rec, off + 0x30);
            }
        }
        off = off + len as usize;
    }
    if found {
        Some(MftMeta { size, mtime, ctime })
    } else {
        None
    }
}

// ---- reading the whole table --------------------------------------------------------------

/// The record size that the first record of the table states, where it is a sensible one; nothing
/// where too little could be read.
pub fn record_size_of(probe: &[u8]) -> (r: Option<usize>)
    ensures
        r == (if probe@.len() < 42 {
            None
        } else if 512 <= bytes::u32_at(probe@, 0x1C) <= 4096 {
            Some(bytes::u32_at(probe@, 0x1C) as usize)
        } else {
            Some(DEFAULT_RECORD_SIZE)
        }),
{
    if probe.len() < 42 {
        return None;
    }
    let stated: u32 = bytes::read_u32(probe, 0x1C);
    if stated >= 512 && stated <= 4096 {
        Some(stated as usize)
    } else {
        Some(DEFAULT_RECORD_SIZE)
    }
}

/// The length of the next read.
pub open spec fn read_len(valid_len: int, total_read: int) -> int {
    let left = valid_len - total_read;
    if left <= 0 {
        0
    } else if left < READ_BUF_SIZE {
        left
    } else {
        READ_BUF_SIZE as int
    }
}

/// A read never goes beyond the table nor beyond 64 MiB, and it is the longest that does neither.
pub proof fn law_length_of_a_read(valid_len: int, total_read: int)
    requires
        0 <= total_read <= valid_len,
    ensures
        0 <= read_len(valid_len, total_read) <= 64 * 1024 * 1024,
        total_read + read_len(valid_len, total_read) <= valid_len,
        read_len(valid_len, total_read) == 64 * 1024 * 1024 || total_read + read_len(
            valid_len,
            total_read,
        ) == valid_len,
{
}

/// How many bytes to read next: what is left of the table, at most one buffer.
pub fn next_read_len(valid_len: u64, total_read: u64) -> (r: u64)
    ensures
        r == read_len(valid_len as int, total_read as int),
        r == (if total_read >= valid_len {
            0
        } else if valid_len - total_read < READ_BUF_SIZE {
            (valid_len - total_read) as u64
        } else {
            READ_BUF_SIZE
        }),
{
    if total_read >= valid_len {
        0
    } else if valid_len - total_read < READ_BUF_SIZE {
        valid_len - total_read
    } else {
        READ_BUF_SIZE
    }
}

/// Something is known of the record.
pub open spec fn worth_keeping(m: MftMeta) -> bool {
    m.size > 0 || m.mtime > 0 || m.ctime > 0
}

/// The table of sizes and times after the first `k` records of a chunk that starts at byte
/// `start` of the file table.
pub open spec fn table_after(
    table: Map<u64, (u64, u64, u64)>,
    data: Seq<u8>,
    start: int,
    record_size: int,
    k: int,
) -> Map<u64, (u64, u64, u64)>
    decreases k,
{
    if k <= 0 {
        table
    } else {
        let before = table_after(table, data, start, record_size, k - 1);
        let at = (k - 1) * record_size;
        match record_meta(data.subrange(at, at + record_size)) {
            Some(m) => if worth_keeping(m) {
                before.insert(((start + at) / record_size) as u64, (m.size, m.mtime, m.ctime))
            } else {
                before
            },
            None => before,
        }
    }
}

/// Takes the whole records of one chunk into the table and says how many bytes they took up; a
/// record cut off at the end of the chunk is left for the next read.
pub fn read_chunk(
    table: &mut HashMap<u64, (u64, u64, u64)>,
    data: &[u8],
    total_read: u64,
    record_size: usize,
) -> (consumed: usize)
    requires
        record_size > 0,
        total_read + data@.len() <= u64::MAX,
    ensures
        consumed == data@.len() / (record_size as nat) * record_size,
        final(table)@ == table_after(
            old(table)@,
            data@,
            total_read as int,
            record_size as int,
            (data@.len() / (record_size as nat)) as int,
        ),
{
    let n: usize = data.len();
    let mut off: usize = 0;
    let ghost mut k: int = 0;
    let ghost size = record_size as int;
    while n - off >= record_size
        invariant
            n == data@.len(),
            off <= n,
            record_size > 0,
            size == record_size,
            0 <= k,
            off == k * size,
            total_read + n <= u64::MAX,
            table@ == table_after(old(table)@, data@, total_read as int, size, k),
        decreases n - off,
    {
        let rec = crate::usn::slice_between(data, off, off + record_size);
        let num: u64 = (total_read + off as u64) / record_size as u64;
        match parse_mft_record_for_meta(&rec) {
            Some(m) => {
                if m.size > 0 || m.mtime > 0 || m.ctime > 0 {
                    table.insert(num, (m.size, m.mtime, m.ctime));
                }
            },
            None => {},
        }
        proof {
            assert((k + 1) * size == k * size + size) by (nonlinear_arith);
            k = k + 1;
        }
        off = off + record_size;
    }
    proof {
        assert(n as int / size == k) by (nonlinear_arith)
            requires
                k * size <= n,
                n - k * size < size,
                size > 0,
                k >= 0,
        ;
    }
    off
}

/// Reading the file table from its start, piece by piece.
pub struct MftRead {
    pub record_size: usize,
    /// The length of the table in bytes.
    pub valid_len: u64,
    /// How far it has been read.
    pub total_read: u64,
    /// Size, modification and creation time by record number.
    pub table: HashMap<u64, (u64, u64, u64)>,
}

impl MftRead {
    pub open spec fn wf(self) -> bool {
        &&& self.record_size > 0
        &&& self.total_read <= self.valid_len
    }

    /// The `k` first records of the table `t` have been taken in, and nothing else.
    pub open spec fn has_read(self, t: Seq<u8>, k: int) -> bool {
        &&& self.total_read == k * self.record_size
        &&& self.table@ == table_after(Map::empty(), t, 0, self.record_size as int, k)
    }

    /// How many bytes to read next; none at the end.
    pub fn next_len(&self) -> (r: u64)
        ensures
            r == read_len(self.valid_len as int, self.total_read as int),
            r == (if self.total_read >= self.valid_len {
                0
            } else if self.valid_len - self.total_read < READ_BUF_SIZE {
                (self.valid_len - self.total_read) as u64
            } else {
                READ_BUF_SIZE
            }),
    {
        next_read_len(self.valid_len, self.total_read)
    }

    /// Takes in what a read gave and says how many bytes of it have to be read again: those of a
    /// record that was cut off at the end.
    pub fn on_chunk(&mut self, data: &[u8]) -> (back: u64)
        requires
            old(self).wf(),
            old(self).total_read + data@.len() <= old(self).valid_len,
        ensures
            final(self).wf(),
            final(self).record_size == old(self).record_size,
            final(self).valid_len == old(self).valid_len,
            final(self).total_read == old(self).total_read + data@.len() / (
            old(self).record_size as nat) * old(self).record_size,
            final(self).table@ == table_after(
                old(self).table@,
                data@,
                old(self).total_read as int,
                old(self).record_size as int,
                (data@.len() / (old(self).record_size as nat)) as int,
            ),
            back == data@.len() % (old(self).record_size as nat),
    {
        let ghost n = data@.len() as int;
        let ghost size = self.record_size as int;
        let consumed: usize = read_chunk(
            &mut self.table,
            data,
            self.total_read,
            self.record_size,
        );
        proof {
            vstd::arithmetic::div_mod::lemma_fundamental_div_mod(n, size);
            assert(size * (n / size) == n / size * size) by (nonlinear_arith);
            vstd::arithmetic::div_mod::lemma_mod_bound(n, size);
        }
        self.total_read = self.total_read + consumed as u64;
        (data.len() - consumed) as u64
    }
}

/// Begins to read a table of `valid_len` bytes whose first bytes are `probe`; nothing where too
/// little of it could be read.
pub fn read_mft_metadata(probe: &[u8], valid_len: u64) -> (r: Option<MftRead>)
    ensures
        r is None <==> probe@.len() < 42,
        r matches Some(m) ==> {
            &&& m.wf()
            &&& m.valid_len == valid_len
            &&& m.total_read == 0
            &&& m.table@ == Map::<u64, (u64, u64, u64)>::empty()
            &&& m.record_size == (if 512 <= bytes::u32_at(probe@, 0x1C) <= 4096 {
                bytes::u32_at(probe@, 0x1C) as usize
            } else {
                DEFAULT_RECORD_SIZE
            })
        },
{
    match record_size_of(probe) {
        Some(record_size) => Some(
            MftRead { record_size, valid_len, total_read: 0, table: HashMap::new() },
        ),
        None => None,
    }
}

/// The records of a piece that starts behind the first `k` records count on from there.
proof fn lemma_table_goes_on(t: Seq<u8>, data: Seq<u8>, record_size: int, k: int, j: int)
    requires
        record_size > 0,
        k >= 0,
        0 <= j * record_size <= data.len(),
        j >= 0,
        k * record_size + data.len() <= t.len(),
        data == t.subrange(k * record_size, k * record_size + data.len()),
    ensures
        table_after(
            table_after(Map::empty(), t, 0, record_size, k),
            data,
            k * record_size,
            record_size,
            j,
        ) == table_after(Map::empty(), t, 0, record_size, k + j),
    decreases j,
{
    if j > 0 {
        assert(j * record_size == (j - 1) * record_size + record_size) by (nonlinear_arith);
        assert((j - 1) * record_size >= 0) by (nonlinear_arith)
            requires
                j > 0,
                record_size > 0,
        ;
        lemma_table_goes_on(t, data, record_size, k, j - 1);
        let at = (j - 1) * record_size;
        assert(k * record_size + at == (k + j - 1) * record_size) by (nonlinear_arith)
            requires
                at == (j - 1) * record_size,
        ;
        assert(data.subrange(at, at + record_size) =~= t.subrange(
            (k + j - 1) * record_size,
            (k + j - 1) * record_size + record_size,
        ));
    }
}

/// However the reads cut the table `t` into pieces, the same sizes and times come out under the
/// same record numbers: after a piece that was read where the last one left off, exactly the whole
/// records read so far have been taken in.
pub proof fn law_pieces_do_not_matter(m: MftRead, t: Seq<u8>, data: Seq<u8>, k: int)
    requires
        m.wf(),
        k >= 0,
        m.has_read(t, k),
        m.total_read + data.len() <= t.len(),
        data == t.subrange(m.total_read as int, m.total_read + data.len()),
    ensures
        table_after(
            m.table@,
            data,
            m.total_read as int,
            m.record_size as int,
            data.len() as int / m.record_size as int,
        ) == table_after(
            Map::empty(),
            t,
            0,
            m.record_size as int,
            k + data.len() as int / m.record_size as int,
        ),
        m.total_read + data.len() as int / m.record_size as int * m.record_size == (k
            + data.len() as int / m.record_size as int) * m.record_size,
{
    let size = m.record_size as int;
    let n = data.len() as int;
    let j = n / size;
    vstd::arithmetic::div_mod::lemma_fundamental_div_mod(n, size);
    vstd::arithmetic::div_mod::lemma_mod_bound(n, size);
    assert(size * j == j * size) by (nonlinear_arith);
    vstd::arithmetic::div_mod::lemma_div_pos_is_pos(n, size);
    assert(j * size >= 0) by (nonlinear_arith)
        requires
            j >= 0,
            size > 0,
    ;
    assert((k + j) * size == k * size + j * size) by (nonlinear_arith);
    lemma_table_goes_on(t, data, size, k, j);
}

/// What is known of the file with reference number `frn`.
pub open spec fn meta_of(m: Map<u64, (u64, u64, u64)>, frn: u64) -> Option<(u64, u64, u64)> {
    let record = frn & RECORD_NUMBER_MASK;
    if m.contains_key(record) {
        Some(m[record])
    } else {
        None
    }
}

/// What was read of a record is found by every reference number of that record, whatever stands
/// above its low 48 bits, and nothing is found of records that were not read.
pub proof fn law_meta_is_found(m: Map<u64, (u64, u64, u64)>, record: u64, seq_no: u64)
    requires
        record < 0x1_0000_0000_0000,
        seq_no < 0x1_0000,
    ensures
        meta_of(m, (seq_no * 0x1_0000_0000_0000 + record) as u64) == (if m.contains_key(record) {
            Some(m[record])
        } else {
            None
        }),
{
    law_lookup_ignores_sequence((seq_no * 0x1_0000_0000_0000 + record) as u64);
}

/// The size and times of the file with reference number `frn`, whose low 48 bits are its record
/// number.
pub fn lookup_meta(meta_map: &HashMap<u64, (u64, u64, u64)>, frn: u64) -> (r: Option<
    (u64, u64, u64),
>)
    ensures
        r == meta_of(meta_map@, frn),
        r == (if meta_map@.contains_key(frn & RECORD_NUMBER_MASK) {
            Some(meta_map@[frn & RECORD_NUMBER_MASK])
        } else {
            None
        }),
{
    let num: u64 = frn & RECORD_NUMBER_MASK;
    match meta_map.get(&num) {
        Some(m) => Some(*m),
        None => None,
    }
}

/// Reference numbers that differ only above their low 48 bits name the same record.
pub proof fn law_lookup_ignores_sequence(frn: u64)
    ensures
        frn & RECORD_NUMBER_MASK == frn % 0x1_0000_0000_0000,
{
    assert(frn & 0x0000_FFFF_FFFF_FFFF == frn % 0x1_0000_0000_0000) by (bit_vector);
}

/// The number of the `k`-th whole record of a chunk that starts on a record boundary counts on
/// from the records before the chunk, whatever the length of the reads.
pub proof fn law_record_numbers(before: int, record_size: int, k: int)
    requires
        before >= 0,
        record_size > 0,
        k >= 0,
    ensures
        (before * record_size + k * record_size) / record_size == before + k,
{
    assert(before * record_size + k * record_size == (before + k) * record_size)
        by (nonlinear_arith);
    vstd::arithmetic::div_mod::lemma_div_by_multiple(before + k, record_size);
}

/// What a record in use says: the last change and the creation stand in its standard information,
/// the size in its data, at the place that each form has for it. A record counts as in use by its
/// letters `FILE` and the lowest bit of its flags.
pub proof fn law_record_says_its_size_and_times(rec: Seq<u8>, i: int, d: int)
    requires
        rec.len() >= 42,
        rec[0] == 'F' as u8 && rec[1] == 'I' as u8 && rec[2] == 'L' as u8 && rec[3] == 'E' as u8,
        bytes::u16_at(rec, 22) & 1 != 0,
        ({
            let attrs = attributes(rec, bytes::u16_at(rec, 20) as int);
            &&& 0 <= i < attrs.len()
            &&& bytes::u32_at(rec, attrs[i]) == 0x10
            &&& rec[attrs[i] + 8] == 0
            &&& bytes::u32_at(rec, attrs[i] + 16) >= 48
            &&& attrs[i] + bytes::u16_at(rec, attrs[i] + 20) + 48 <= rec.len()
            &&& forall|j: int| i < j < attrs.len() ==> bytes::u32_at(rec, #[trigger] attrs[j]) != 0x10
            &&& -1 <= d < attrs.len()
            &&& d >= 0 ==> bytes::u32_at(rec, attrs[d]) == 0x80
            &&& forall|j: int| d < j < attrs.len() ==> bytes::u32_at(rec, #[trigger] attrs[j]) != 0x80
        }),
    ensures
        ({
            let attrs = attributes(rec, bytes::u16_at(rec, 20) as int);
            let at = attrs[i] + bytes::u16_at(rec, attrs[i] + 20);
            &&& record_meta(rec) matches Some(m)
            &&& m.ctime == bytes::u64_at(rec, at)
            &&& m.mtime == bytes::u64_at(rec, at + 8)
            &&& d < 0 ==> m.size == 0
            &&& d >= 0 && rec[attrs[d] + 8] == 0 ==> m.size == bytes::u32_at(rec, attrs[d] + 16)
            &&& d >= 0 && rec[attrs[d] + 8] != 0 && bytes::u32_at(rec, attrs[d] + 4) >= 56 ==> m.size
                == bytes::u64_at(rec, attrs[d] + 48)
        }),
{
    let attrs = attributes(rec, bytes::u16_at(rec, 20) as int);
    lemma_last_times(rec, attrs, i);
    lemma_last_size(rec, attrs, d);
}

proof fn lemma_last_times(rec: Seq<u8>, attrs: Seq<int>, i: int)
    requires
        0 <= i < attrs.len(),
        times_at(rec, attrs[i]) is Some,
        forall|j: int| i < j < attrs.len() ==> bytes::u32_at(rec, #[trigger] attrs[j]) != 0x10,
    ensures
        last_times(rec, attrs) == times_at(rec, attrs[i]),
    decreases attrs.len(),
{
    let t = attrs.drop_last();
    assert(attrs.last() == attrs[attrs.len() - 1]);
    if i < t.len() {
        assert(t[i] == attrs[i]);
        assert forall|j: int| i < j < t.len() implies bytes::u32_at(rec, #[trigger] t[j]) != 0x10 by {
            assert(t[j] == attrs[j]);
        }
        lemma_last_times(rec, t, i);
    }
}

proof fn lemma_last_size(rec: Seq<u8>, attrs: Seq<int>, d: int)
    requires
        -1 <= d < attrs.len(),
        forall|j: int| d < j < attrs.len() ==> bytes::u32_at(rec, #[trigger] attrs[j]) != 0x80,
    ensures
        d < 0 ==> last_size(rec, attrs) == 0,
        d >= 0 && size_at(rec, attrs[d]) is Some ==> Some(last_size(rec, attrs)) == size_at(
            rec,
            attrs[d],
        ),
    decreases attrs.len(),
{
    if attrs.len() > 0 {
        let t = attrs.drop_last();
        assert(attrs.last() == attrs[attrs.len() - 1]);
        if d < t.len() {
            assert forall|j: int| d < j < t.len() implies bytes::u32_at(rec, #[trigger] t[j]) != 0x80 by {
                assert(t[j] == attrs[j]);
            }
            lemma_last_size(rec, t, d);
        }
    }
}

/// The places of attributes that stand in a row from `at` on.
pub open spec fn places_in_row(attrs: Seq<Seq<u8>>, at: int) -> Seq<int>
    decreases attrs.len(),
{
    if attrs.len() == 0 {
        Seq::empty()
    } else {
        seq![at] + places_in_row(attrs.drop_first(), at + attrs[0].len())
    }
}

/// Each attribute has a kind and states its length behind it.
pub open spec fn whole_attributes(attrs: Seq<Seq<u8>>) -> bool {
    forall|i: int|
        0 <= i < attrs.len() ==> (#[trigger] attrs[i]).len() >= 24 && bytes::u32_at(attrs[i], 4)
            == attrs[i].len() && bytes::u32_at(attrs[i], 0) != 0 && bytes::u32_at(attrs[i], 0)
            != 0xFFFF_FFFF
}

/// The attributes of a record are found one behind the other, up to the end mark.
pub proof fn law_attributes_are_found(head: Seq<u8>, attrs: Seq<Seq<u8>>, rest: Seq<u8>)
    requires
        whole_attributes(attrs),
        rest.len() >= 8,
        bytes::u32_at(rest, 0) == 0xFFFF_FFFF,
    ensures
        attributes(head + crate::usn::in_a_row(attrs) + rest, head.len() as int) == places_in_row(
            attrs,
            head.len() as int,
        ),
    decreases attrs.len(),
{
    let row = crate::usn::in_a_row(attrs);
    let b = head + row + rest;
    let off = head.len() as int;
    if attrs.len() == 0 {
        assert(b.subrange(off, off + 4) =~= rest.subrange(0, 4));
        bytes::lemma_read_shifted(b, rest, off, 0);
        assert(attributes(b, off) =~= places_in_row(attrs, off));
    } else {
        let a = attrs[0];
        let more = attrs.drop_first();
        assert(whole_attributes(more)) by {
            assert forall|i: int| 0 <= i < more.len() implies (#[trigger] more[i]).len() >= 24
                && bytes::u32_at(more[i], 4) == more[i].len() && bytes::u32_at(more[i], 0) != 0
                && bytes::u32_at(more[i], 0) != 0xFFFF_FFFF by {
                assert(more[i] == attrs[i + 1]);
            }
        }
        law_attributes_are_found(head + a, more, rest);
        assert((head + a) + crate::usn::in_a_row(more) + rest =~= b);
        assert(b.subrange(off, off + 4) =~= a.subrange(0, 4));
        assert(b.subrange(off + 4, off + 8) =~= a.subrange(4, 8));
        bytes::lemma_read_shifted(b, a, off, 0);
        bytes::lemma_read_shifted(b, a, off + 4, 4);
    }
}

} // verus!
