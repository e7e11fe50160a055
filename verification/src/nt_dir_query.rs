//! Directory listings by handle: chains of entries with identifiers, sizes and times, and the
//! split of the work over threads.
use vstd::prelude::*;
use crate::bytes;

verus! {

/// Reference number, size, modification and creation time of one file.
pub type DirMetaRec = (u64, u64, u64, u64);

pub const MIN_DIRS_PER_CHUNK: usize = 1024;
pub const CHUNKS_PER_THREAD: usize = 8;
pub const PROGRESS_EVERY_DIRS: usize = 50_000;
/// The length of an entry before its name.
pub const ENTRY_HEAD: usize = 104;

/// The entry names `.` or `..`.
pub open spec fn dot_entry(b: Seq<u8>, off: int) -> bool {
    let n = bytes::u32_at(b, off + 60);
    ||| n == 2 && off + 106 <= b.len() && bytes::u16_at(b, off + 104) == 46
    ||| n == 4 && off + 108 <= b.len() && bytes::u16_at(b, off + 104) == 46 && bytes::u16_at(
        b,
        off + 106,
    ) == 46
}

/// What the entry at `off` says of a file; nothing for a directory or a dot entry.
pub open spec fn entry_meta(b: Seq<u8>, off: int) -> Option<DirMetaRec> {
    if bytes::u32_at(b, off + 56) & 0x10 != 0 || dot_entry(b, off) {
        None
    } else {
        Some(
            (
                bytes::u64_at(b, off + 96),
                bytes::u64_at(b, off + 40),
                bytes::u64_at(b, off + 24),
                bytes::u64_at(b, off + 8),
            ),
        )
    }
}

/// The offsets of the entries of a listing from `off` on; each entry states the distance to the
/// next one, zero at the last; a distance past the end of the listing also ends it.
pub open spec fn entry_chain(b: Seq<u8>, off: int) -> Seq<int>
    decreases b.len() - off,
{
    if off < 0 || off + ENTRY_HEAD > b.len() {
        Seq::empty()
    } else {
        let next = bytes::u32_at(b, off) as int;
        if next == 0 || off + next > b.len() {
            seq![off]
        } else {
            seq![off] + entry_chain(b, off + next)
        }
    }
}

/// The files of the entries at the given offsets, in order.
pub open spec fn listed(b: Seq<u8>, offs: Seq<int>) -> Seq<DirMetaRec>
    decreases offs.len(),
{
    if offs.len() == 0 {
        Seq::empty()
    } else {
        let rest = listed(b, offs.drop_first());
        match entry_meta(b, offs[0]) {
            Some(m) => seq![m] + rest,
            None => rest,
        }
    }
}

fn read_entry(b: &[u8], off: usize) -> (r: Option<DirMetaRec>)
    requires
        off + 104 <= b@.len(),
    ensures
        r == entry_meta(b@, off as int),
{
    let n: usize = b.len();
    if bytes::read_u32(b, off + 56) & 0x10 != 0 {
        return None;
    }
    let name_len: u32 = bytes::read_u32(b, off + 60);
    let dot = if name_len == 2 {
        n - off >= 106 && bytes::read_u16(b, off + 104) == 46
    } else if name_len == 4 {
        n - off >= 108 && bytes::read_u16(b, off + 104) == 46 && bytes::read_u16(b, off + 106) == 46
    } else {
        false
    };
    if dot {
        return None;
    }
    Some(
        (
            bytes::read_u64(b, off + 96),
            bytes::read_u64(b, off + 40),
            bytes::read_u64(b, off + 24),
            bytes::read_u64(b, off + 8),
        ),
    )
}

/// Appends the files of one answer to a directory listing.
pub fn read_listing(b: &[u8], out: &mut Vec<DirMetaRec>)
    ensures
        final(out)@ == old(out)@ + listed(b@, entry_chain(b@, 0)),
{
    let n: usize = b.len();
    let mut off: usize = 0;
    let ghost all = listed(b@, entry_chain(b@, 0));
    let ghost start = out@;
    proof {
        assert(start + all == out@ + all);
    }
    while off <= n && n - off >= ENTRY_HEAD
        invariant_except_break
            n == b@.len(),
            out@ + listed(b@, entry_chain(b@, off as int)) == start + all,
        ensures
            out@ == start + all,
        decreases n - off,
    {
        let ghost chain = entry_chain(b@, off as int);
        let ghost before = out@;
        let next: u32 = bytes::read_u32(b, off);
        proof {
            assert(chain[0] == off);
        }
        match read_entry(b, off) {
            Some(m) => {
                out.push(m);
                proof {
                    assert(out@ + listed(b@, chain.drop_first()) =~= before + listed(b@, chain));
                }
            },
            None => {},
        }
        proof {
            assert(out@ + listed(b@, chain.drop_first()) =~= start + all);
        }
        if next == 0 || next as u64 > (n - off) as u64 {
            proof {
                assert(chain.drop_first().len() == 0);
                assert(listed(b@, chain.drop_first()) =~= Seq::empty());
                assert(out@ =~= start + all);
            }
            break;
        }
        proof {
            assert(chain.drop_first() =~= entry_chain(b@, off + next));
        }
        off = off + next as usize;
    }
    assert(out@ =~= start + all);
}

/// What a directory listing consists of: the files of its answers, in order.
pub open spec fn listing_of(answers: Seq<Vec<u8>>) -> Seq<DirMetaRec>
    decreases answers.len(),
{
    if answers.len() == 0 {
        Seq::empty()
    } else {
        let b = answers.last()@;
        listing_of(answers.drop_last()) + listed(b, entry_chain(b, 0))
    }
}

/// The files of a run of directories; one that could not be opened is passed over.
pub open spec fn files_of(dirs: Seq<Option<Vec<Vec<u8>>>>) -> Seq<DirMetaRec>
    decreases dirs.len(),
{
    if dirs.len() == 0 {
        Seq::empty()
    } else {
        files_of(dirs.drop_last()) + (match dirs.last() {
            Some(answers) => listing_of(answers@),
            None => Seq::empty(),
        })
    }
}

/// The sizes and times of the files in a run of directories, of which the system answered each with
/// the given buffers, or could not be opened.
pub fn fetch_dir_meta_batched(dirs: &Vec<Option<Vec<Vec<u8>>>>) -> (r: Vec<DirMetaRec>)
    ensures
        r@ == files_of(dirs@),
{
    let mut out: Vec<DirMetaRec> = Vec::new();
    let mut i: usize = 0;
    proof {
        assert(dirs@.take(0) =~= Seq::empty());
        assert(out@ =~= files_of(dirs@.take(0)));
    }
    while i < dirs.len()
        invariant
            i <= dirs.len(),
            out@ == files_of(dirs@.take(i as int)),
        decreases dirs.len() - i,
    {
        let ghost before = out@;
        if let Some(answers) = &dirs[i] {
            let mut k: usize = 0;
            proof {
                assert(answers@.take(0) =~= Seq::empty());
                assert(before + listing_of(answers@.take(0)) =~= before);
            }
            while k < answers.len()
                invariant
                    k <= answers.len(),
                    out@ == before + listing_of(answers@.take(k as int)),
                decreases answers.len() - k,
            {
                let ghost had = out@;
                read_listing(&answers[k], &mut out);
                proof {
                    let b = answers@[k as int]@;
                    assert(answers@.take(k + 1).drop_last() =~= answers@.take(k as int));
                    assert(answers@.take(k + 1).last() == answers@[k as int]);
                    assert(out@ =~= before + listing_of(answers@.take(k + 1)));
                }
                k += 1;
            }
            proof {
                assert(answers@.take(answers@.len() as int) =~= answers@);
            }
        }
        proof {
            assert(dirs@.take(i + 1).drop_last() =~= dirs@.take(i as int));
            assert(dirs@.take(i + 1).last() == dirs@[i as int]);
            assert(out@ =~= files_of(dirs@.take(i + 1)));
        }
        i += 1;
    }
    proof {
        assert(dirs@.take(dirs@.len() as int) =~= dirs@);
    }
    out
}

/// A directory that cannot be opened costs only its own files, and cutting the work into parts
/// changes nothing: the files of two runs are those of the first followed by those of the second.
pub proof fn law_parts_join(a: Seq<Option<Vec<Vec<u8>>>>, b: Seq<Option<Vec<Vec<u8>>>>)
    ensures
        files_of(a + b) == files_of(a) + files_of(b),
    decreases b.len(),
{
    if b.len() == 0 {
        assert(a + b =~= a);
        assert(files_of(a) + files_of(b) =~= files_of(a));
    } else {
        law_parts_join(a, b.drop_last());
        assert((a + b).drop_last() =~= a + b.drop_last());
        assert((a + b).last() == b.last());
        let last = match b.last() {
            Some(answers) => listing_of(answers@),
            None => Seq::empty(),
        };
        assert(files_of(a) + files_of(b.drop_last()) + last =~= files_of(a) + (files_of(
            b.drop_last(),
        ) + last));
    }
}

/// How many items each task gets: enough tasks for every thread, but none below the minimum.
pub open spec fn chunk_size_of(total: int, threads: int, min_chunk: int) -> int {
    let tasks = CHUNKS_PER_THREAD * (if threads < 1 {
        1
    } else {
        threads
    });
    let even = (total + tasks - 1) / tasks;
    if even < min_chunk {
        min_chunk
    } else {
        even
    }
}

pub fn chunk_size(total: usize, threads: usize, min_chunk: usize) -> (r: usize)
    requires
        total + 8 * threads + 8 <= usize::MAX,
    ensures
        r == chunk_size_of(total as int, threads as int, min_chunk as int),
{
    let t: usize = if threads < 1 {
        1
    } else {
        threads
    };
    let tasks: usize = t * CHUNKS_PER_THREAD;
    let even: usize = (total + tasks - 1) / tasks;
    if even < min_chunk {
        min_chunk
    } else {
        even
    }
}

/// No more tasks than eight per thread come out of the split, and together they hold every item.
pub proof fn law_chunks_cover(total: int, threads: int, min_chunk: int)
    requires
        total >= 0,
        threads >= 1,
        min_chunk >= 1,
    ensures
        chunk_size_of(total, threads, min_chunk) >= 1,
        chunk_size_of(total, threads, min_chunk) * (CHUNKS_PER_THREAD * threads) >= total,
{
    let tasks = CHUNKS_PER_THREAD * threads;
    let even = (total + tasks - 1) / tasks;
    assert(even * tasks >= total) by (nonlinear_arith)
        requires
            even == (total + tasks - 1) / tasks,
            tasks >= 1,
    ;
    let c = chunk_size_of(total, threads, min_chunk);
    assert(c * tasks >= even * tasks) by (nonlinear_arith)
        requires
            c >= even,
            tasks >= 1,
    ;
}

/// Whether progress is worth a line: a multiple of `every` was passed, or all is done.
pub fn progress_due(prev: usize, cur: usize, total: usize, every: usize) -> (r: bool)
    requires
        every > 0,
    ensures
        r == (cur / every > prev / every || cur >= total),
{
    cur / every > prev / every || cur >= total
}

/// How many directories each task lists.
pub fn dirs_per_task(total: usize, threads: usize) -> (r: usize)
    requires
        total + 8 * threads + 8 <= usize::MAX,
    ensures
        r == chunk_size_of(total as int, threads as int, MIN_DIRS_PER_CHUNK as int),
{
    chunk_size(total, threads, MIN_DIRS_PER_CHUNK)
}

/// Whether a line is worth it after `cur` of `total` directories, `prev` of them before.
pub fn listing_progress_due(prev: usize, cur: usize, total: usize) -> (r: bool)
    ensures
        r == (cur / PROGRESS_EVERY_DIRS > prev / PROGRESS_EVERY_DIRS || cur >= total),
{
    progress_due(prev, cur, total, PROGRESS_EVERY_DIRS)
}

/// The entries of an answer: each but the last states its own length, the last states zero.
pub open spec fn chained(blocks: Seq<Seq<u8>>) -> bool {
    forall|i: int|
        0 <= i < blocks.len() ==> (#[trigger] blocks[i]).len() >= 104 && bytes::u32_at(blocks[i], 0)
            == (if i == blocks.len() - 1 {
            0
        } else {
            blocks[i].len() as int
        })
}

/// An entry that is no directory and whose name is neither `.` nor `..`.
pub open spec fn names_file() -> spec_fn(Seq<u8>) -> bool {
    |e: Seq<u8>|
        {
            let n = bytes::u32_at(e, 60);
            &&& bytes::u32_at(e, 56) & 0x10 == 0
            &&& !(n == 2 && e.len() >= 106 && bytes::u16_at(e, 104) == 46)
            &&& !(n == 4 && e.len() >= 108 && bytes::u16_at(e, 104) == 46 && bytes::u16_at(e, 106)
                == 46)
        }
}

/// The record says what the entry says: the number of the file, its size, and the times of its last
/// change and of its creation.
pub open spec fn record_says(m: DirMetaRec, e: Seq<u8>) -> bool {
    &&& m.0 == bytes::u64_at(e, 96)
    &&& m.1 == bytes::u64_at(e, 40)
    &&& m.2 == bytes::u64_at(e, 24)
    &&& m.3 == bytes::u64_at(e, 8)
}

/// The names of the entries lie inside their entries.
pub open spec fn names_inside(blocks: Seq<Seq<u8>>) -> bool {
    forall|i: int|
        0 <= i < blocks.len() ==> 104 + bytes::u32_at(#[trigger] blocks[i], 60) <= blocks[i].len()
}

proof fn lemma_block_at(b: Seq<u8>, e: Seq<u8>, off: int)
    requires
        0 <= off,
        off + e.len() <= b.len(),
        b.subrange(off, off + e.len()) == e,
        e.len() >= 104,
        104 + bytes::u32_at(e, 60) <= e.len(),
    ensures
        bytes::u32_at(b, off) == bytes::u32_at(e, 0),
        entry_meta(b, off) is Some <==> names_file()(e),
        entry_meta(b, off) matches Some(m) ==> record_says(m, e),
{
    assert forall|i: int, j: int| 0 <= i <= j <= e.len() implies #[trigger] b.subrange(
        off + i,
        off + j,
    ) == e.subrange(i, j) by {
        assert(b.subrange(off, off + e.len()).subrange(i, j) =~= b.subrange(off + i, off + j));
    }
    assert(b.subrange(off + 0, off + 4) == e.subrange(0, 4));
    assert(b.subrange(off + 56, off + 60) == e.subrange(56, 60));
    assert(b.subrange(off + 60, off + 64) == e.subrange(60, 64));
    assert(b.subrange(off + 96, off + 104) == e.subrange(96, 104));
    assert(b.subrange(off + 40, off + 48) == e.subrange(40, 48));
    assert(b.subrange(off + 24, off + 32) == e.subrange(24, 32));
    assert(b.subrange(off + 8, off + 16) == e.subrange(8, 16));
    bytes::lemma_read_shifted(b, e, off, 0);
    bytes::lemma_read_shifted(b, e, off + 56, 56);
    bytes::lemma_read_shifted(b, e, off + 60, 60);
    bytes::lemma_read_shifted(b, e, off + 96, 96);
    bytes::lemma_read_shifted(b, e, off + 40, 40);
    bytes::lemma_read_shifted(b, e, off + 24, 24);
    bytes::lemma_read_shifted(b, e, off + 8, 8);
    if e.len() >= 106 {
        assert(b.subrange(off + 104, off + 106) == e.subrange(104, 106));
        bytes::lemma_read_shifted(b, e, off + 104, 104);
    }
    if e.len() >= 108 {
        assert(b.subrange(off + 106, off + 108) == e.subrange(106, 108));
        bytes::lemma_read_shifted(b, e, off + 106, 106);
    }
}

proof fn lemma_listing(before: Seq<u8>, blocks: Seq<Seq<u8>>) -> (files: Seq<Seq<u8>>)
    requires
        chained(blocks),
        names_inside(blocks),
        blocks.len() > 0,
    ensures
        files == blocks.filter(names_file()),
        ({
            let b = before + crate::usn::in_a_row(blocks);
            let found = listed(b, entry_chain(b, before.len() as int));
            &&& found.len() == files.len()
            &&& forall|k: int| 0 <= k < files.len() ==> record_says(#[trigger] found[k], files[k])
        }),
    decreases blocks.len(),
{
    let p = names_file();
    let b = before + crate::usn::in_a_row(blocks);
    let off = before.len() as int;
    let e = blocks[0];
    let rest = blocks.drop_first();
    assert(blocks =~= seq![e] + rest);
    Seq::filter_distributes_over_add(seq![e], rest, p);
    crate::lists::lemma_filter_one(e, p);
    assert(b.subrange(off, off + e.len()) =~= e);
    lemma_block_at(b, e, off);
    let chain = entry_chain(b, off);
    let found = listed(b, chain);
    let files = blocks.filter(p);
    if rest.len() == 0 {
        assert(rest =~= Seq::empty());
        crate::lists::lemma_filter_one(e, p);
        assert(chain =~= seq![off]);
        assert(chain.drop_first() =~= Seq::<int>::empty());
        assert(listed(b, chain.drop_first()) =~= Seq::<DirMetaRec>::empty());
        assert(files =~= seq![e].filter(p));
    } else {
        assert(chained(rest)) by {
            assert forall|i: int| 0 <= i < rest.len() implies (#[trigger] rest[i]).len() >= 104
                && bytes::u32_at(rest[i], 0) == (if i == rest.len() - 1 {
                0
            } else {
                rest[i].len() as int
            }) by {
                assert(rest[i] == blocks[i + 1]);
            }
        }
        assert(names_inside(rest)) by {
            assert forall|i: int| 0 <= i < rest.len() implies 104 + bytes::u32_at(
                #[trigger] rest[i],
                60,
            ) <= rest[i].len() by {
                assert(rest[i] == blocks[i + 1]);
            }
        }
        let more = lemma_listing(before + e, rest);
        assert((before + e) + crate::usn::in_a_row(rest) =~= b);
        let tail = entry_chain(b, off + e.len());
        assert(chain =~= seq![off] + tail);
        assert(chain.drop_first() =~= tail);
        assert forall|k: int| 0 <= k < files.len() implies record_says(#[trigger] found[k], files[k]) by {
            if p(e) {
                if k > 0 {
                    assert(found[k] == listed(b, tail)[k - 1]);
                    assert(files[k] == more[k - 1]);
                }
            } else {
                assert(found[k] == listed(b, tail)[k]);
            }
        }
    }
    files
}

/// Each file of an answer gives one record, in order, with what its entry says; directories and the
/// two dot entries give none.
pub proof fn law_listing_is_read(blocks: Seq<Seq<u8>>, i: int)
    requires
        chained(blocks),
        names_inside(blocks),
        0 <= i < blocks.len(),
    ensures
        ({
            let b = crate::usn::in_a_row(blocks);
            let found = listed(b, entry_chain(b, 0));
            let k = blocks.take(i).filter(names_file()).len() as int;
            &&& found.len() == blocks.filter(names_file()).len()
            &&& names_file()(blocks[i]) ==> k < found.len() && record_says(found[k], blocks[i])
        }),
{
    let files = lemma_listing(Seq::empty(), blocks);
    assert(Seq::<u8>::empty() + crate::usn::in_a_row(blocks) =~= crate::usn::in_a_row(blocks));
    if names_file()(blocks[i]) {
        crate::lists::lemma_filter_position(blocks, names_file(), i);
    }
}

} // verus!
