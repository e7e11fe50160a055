//! Reading sizes and times file by file, in blocks that several threads share.
use vstd::prelude::*;
use crate::mft::MetaUpdate;
use crate::nt_dir_query;

verus! {

/// The least number of files in a block.
pub const MIN_CHUNK: usize = 4096;

/// Progress is reported whenever so many more files are done.
pub const PROGRESS_EVERY: usize = 200_000;

/// What a block brings: the files that could be read, in order. `fetched` may be shorter than the
/// block, where the work was called off.
pub open spec fn block_updates(places: Seq<usize>, fetched: Seq<Option<(u64, u64, u64)>>) -> Seq<
    MetaUpdate,
>
    decreases fetched.len(),
{
    if fetched.len() == 0 {
        Seq::empty()
    } else {
        let k = fetched.len() - 1;
        let rest = block_updates(places, fetched.drop_last());
        match fetched.last() {
            Some(m) => rest.push((places[k], m.0, m.1, m.2)),
            None => rest,
        }
    }
}

pub fn fill_metadata_by_id_pooled(places: &Vec<usize>, fetched: &Vec<Option<(u64, u64, u64)>>) -> (r:
    Vec<MetaUpdate>)
    requires
        fetched@.len() <= places@.len(),
    ensures
        r@ == block_updates(places@, fetched@),
{
    let mut out: Vec<MetaUpdate> = Vec::new();
    let mut i: usize = 0;
    assert(fetched@.take(0) =~= Seq::empty());
    while i < fetched.len()
        invariant
            i <= fetched@.len() <= places@.len(),
            out@ == block_updates(places@, fetched@.take(i as int)),
        decreases fetched.len() - i,
    {
        assert(fetched@.take(i + 1).drop_last() =~= fetched@.take(i as int));
        match fetched[i] {
            Some(m) => {
                out.push((places[i], m.0, m.1, m.2));
            },
            None => {},
        }
        i += 1;
    }
    assert(fetched@.take(fetched@.len() as int) =~= fetched@);
    out
}

/// How many files each block holds.
pub fn files_per_block(total: usize, threads: usize) -> (r: usize)
    requires
        total + 8 * threads + 8 <= usize::MAX,
    ensures
        r == crate::nt_dir_query::chunk_size_of(total as int, threads as int, MIN_CHUNK as int),
{
    nt_dir_query::chunk_size(total, threads, MIN_CHUNK)
}

/// Whether a line is worth it after `cur` of `total` files, `prev` of them before.
pub fn fill_progress_due(prev: usize, cur: usize, total: usize) -> (r: bool)
    ensures
        r == (cur / PROGRESS_EVERY > prev / PROGRESS_EVERY || cur >= total),
{
    nt_dir_query::progress_due(prev, cur, total, PROGRESS_EVERY)
}

/// Whether the call-off flag is looked at before the file `i` of a block.
pub fn cancel_check_due(i: usize) -> (r: bool)
    ensures
        r == (i % 256 == 0),
{
    i % 256 == 0
}

/// How many files are done after a block, and how many percent that is.
pub fn pool_progress(before: usize, block: usize, total: usize) -> (r: (usize, u64))
    requires
        before + block <= usize::MAX,
        total > 0,
    ensures
        r.0 == (if before + block < total {
            before + block
        } else {
            total as int
        }),
        r.1 == r.0 as int * 100 / total as int,
        r.1 <= 100,
{
    let sum: usize = before + block;
    let cur: usize = if sum < total {
        sum
    } else {
        total
    };
    let p: u128 = cur as u128 * 100 / total as u128;
    assert(cur as int * 100 / total as int <= 100) by (nonlinear_arith)
        requires
            0 <= cur <= total,
            total > 0,
    ;
    (cur, p as u64)
}

/// Every update of a block is for a place of the block, and a file that could not be read has
/// none.
pub proof fn law_updates_stay_in_block(
    places: Seq<usize>,
    fetched: Seq<Option<(u64, u64, u64)>>,
    u: MetaUpdate,
)
    requires
        fetched.len() <= places.len(),
    ensures
        block_updates(places, fetched).contains(u) <==> exists|i: int|
            0 <= i < fetched.len() && #[trigger] fetched[i] == Some((u.1, u.2, u.3)) && places[i]
                == u.0,
    decreases fetched.len(),
{
    if fetched.len() > 0 {
        let k = fetched.len() - 1;
        let less = fetched.drop_last();
        let rest = block_updates(places, less);
        let all = block_updates(places, fetched);
        law_updates_stay_in_block(places, less, u);
        if all.contains(u) {
            let j = choose|j: int| 0 <= j < all.len() && all[j] == u;
            if j < rest.len() {
                assert(rest[j] == u);
                let i = choose|i: int|
                    0 <= i < less.len() && #[trigger] less[i] == Some((u.1, u.2, u.3)) && places[i]
                        == u.0;
                assert(fetched[i] == Some((u.1, u.2, u.3)));
            } else {
                assert(fetched[k] == Some((u.1, u.2, u.3)));
            }
        }
        if exists|i: int|
            0 <= i < fetched.len() && #[trigger] fetched[i] == Some((u.1, u.2, u.3)) && places[i]
                == u.0 {
            let i = choose|i: int|
                0 <= i < fetched.len() && #[trigger] fetched[i] == Some((u.1, u.2, u.3)) && places[i]
                    == u.0;
            if i < k {
                assert(less[i] == Some((u.1, u.2, u.3)));
                let j = choose|j: int| 0 <= j < rest.len() && rest[j] == u;
                assert(all[j] == u);
            } else {
                assert(all[all.len() - 1] == u);
            }
        }
    }
}

} // verus!
