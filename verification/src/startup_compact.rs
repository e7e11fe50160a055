//! Removing deleted entries from an index right after it was loaded, before anyone searches it.
use vstd::prelude::*;
use crate::text;

verus! {

/// Smaller indexes are left alone.
pub const MIN_ENTRIES: u64 = 100_000;

/// What the removal came to.
#[derive(Debug, Clone, Copy, PartialEq, Eq, Structural)]
pub enum AutoCompactOutcome {
    /// The index has too few deleted entries.
    Skipped,
    /// The deleted entries are gone from memory; `saved_ok` if the file was replaced as well.
    Compacted { removed: u64, saved_ok: bool },
}

/// At least a hundred thousand entries, and more than a quarter of them deleted.
pub open spec fn worth_compacting(entries: int, tombstones: int) -> bool {
    entries >= MIN_ENTRIES && tombstones * 4 > entries
}

pub fn should_compact(entries: u64, tombstones: u64) -> (r: bool)
    ensures
        r == worth_compacting(entries as int, tombstones as int),
{
    entries >= MIN_ENTRIES && tombstones as u128 * 4 > entries as u128
}

/// How many entries must be left when `tombstones` of `before` are removed.
pub open spec fn expected_entries(before: int, tombstones: int) -> int {
    if before > tombstones {
        before - tombstones
    } else {
        0
    }
}

pub open spec fn guard_text(before: nat, tombstones: nat, left: nat) -> Seq<char> {
    "启动自动压缩守卫触发：预期保留 "@ + text::decimal(
        expected_entries(before as int, tombstones as int) as nat,
    ) + " 条（"@ + text::decimal(before) + " - "@ + text::decimal(tombstones)
        + " 墓碑），实际 "@ + text::decimal(left)
        + " 条。已放弃落盘且拒绝以可疑索引启动。这是 bug，请反馈。"@
}

/// Checks what a removal has left: nothing but deleted entries may be gone. An index that lost
/// more is neither saved nor used.
pub fn check_compacted(before: u64, tombstones: u64, left: u64) -> (r: Result<(), String>)
    ensures
        match r {
            Ok(_) => left >= expected_entries(before as int, tombstones as int),
            Err(e) => left < expected_entries(before as int, tombstones as int) && e@ == guard_text(
                before as nat,
                tombstones as nat,
                left as nat,
            ),
        },
{
    let expected: u64 = if before > tombstones {
        before - tombstones
    } else {
        0
    };
    if left >= expected {
        return Ok(());
    }
    let mut s = text::copied("启动自动压缩守卫触发：预期保留 ");
    s.push_str(&text::decimal_text(expected));
    s.push_str(" 条（");
    s.push_str(&text::decimal_text(before));
    s.push_str(" - ");
    s.push_str(&text::decimal_text(tombstones));
    s.push_str(" 墓碑），实际 ");
    s.push_str(&text::decimal_text(left));
    s.push_str(
        " 条。已放弃落盘且拒绝以可疑索引启动。这是 bug，请反馈。",
    );
    Err(s)
}

/// What a removal changes of an index in memory.
#[derive(Debug, Clone, Copy, PartialEq, Eq, Structural)]
pub struct StoreState {
    pub entries: u64,
    pub tombstones: u64,
    /// There are search tables. They name the entries by their numbers.
    pub tables: bool,
}

/// A whole pass over an index, where the removal took out `removed` entries and left `left`, and
/// saving went well or not. The removal gives the entries new numbers, so the search tables are
/// dropped; a failed save does not matter for the index in memory.
pub fn auto_compact_if_needed(store: &mut StoreState, removed: u64, left: u64, saved_ok: bool) -> (r:
    Result<AutoCompactOutcome, String>)
    ensures
        match r {
            Ok(AutoCompactOutcome::Skipped) => {
                &&& !worth_compacting(old(store).entries as int, old(store).tombstones as int)
                &&& *final(store) == *old(store)
            },
            Ok(AutoCompactOutcome::Compacted { removed: n, saved_ok: s }) => {
                &&& worth_compacting(old(store).entries as int, old(store).tombstones as int)
                &&& left >= expected_entries(
                    old(store).entries as int,
                    old(store).tombstones as int,
                )
                &&& n == removed
                &&& s == saved_ok
                &&& *final(store) == (StoreState { entries: left, tombstones: 0, tables: false })
            },
            Err(e) => {
                &&& worth_compacting(old(store).entries as int, old(store).tombstones as int)
                &&& left < expected_entries(
                    old(store).entries as int,
                    old(store).tombstones as int,
                )
                &&& e@ == guard_text(
                    old(store).entries as nat,
                    old(store).tombstones as nat,
                    left as nat,
                )
                &&& *final(store) == (StoreState { entries: left, tombstones: 0, ..*old(store) })
            },
        },
{
    if !should_compact(store.entries, store.tombstones) {
        return Ok(AutoCompactOutcome::Skipped);
    }
    let checked = check_compacted(store.entries, store.tombstones, left);
    store.entries = left;
    store.tombstones = 0;
    match checked {
        Ok(_) => {
            store.tables = false;
            Ok(AutoCompactOutcome::Compacted { removed, saved_ok })
        },
        Err(e) => Err(e),
    }
}

/// The file that the new index is written to before it takes the place of the old one; `name` is
/// the last part of the path of the index, where it has one.
pub fn temp_file_name(name: Option<&str>) -> (r: String)
    ensures
        r@ == (match name {
            Some(n) => n@,
            None => "index.bin"@,
        }) + ".compact.tmp"@,
{
    let mut s = match name {
        Some(n) => text::copied(n),
        None => text::copied("index.bin"),
    };
    s.push_str(".compact.tmp");
    s
}

/// An index from which all deleted entries were removed is not worth removing from again.
pub proof fn law_compacting_settles(entries: int)
    ensures
        !worth_compacting(entries, 0),
{
}

/// An index is compacted from a hundred thousand entries on, where more than a quarter of them is
/// deleted; then as many must be left as were not.
pub proof fn law_when_to_compact(entries: int, tombstones: int)
    requires
        0 <= tombstones <= entries,
    ensures
        worth_compacting(entries, tombstones) <==> entries >= 100_000 && 4 * tombstones > entries,
        expected_entries(entries, tombstones) == entries - tombstones,
{
}

/// After a compaction as many entries are expected as there were, less those that were deleted.
pub proof fn law_expected_entries(before: int, tombstones: int)
    requires
        0 <= tombstones,
        0 <= before,
    ensures
        tombstones <= before ==> expected_entries(before, tombstones) + tombstones == before,
        tombstones > before ==> expected_entries(before, tombstones) == 0,
{
}

} // verus!
