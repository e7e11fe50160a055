//! What the service sets up when it starts.
use vstd::prelude::*;
use crate::startup_compact::AutoCompactOutcome;
use crate::text;
use crate::volumes;
use crate::watch::VolumeState;

verus! {

/// The switches of a run.
#[derive(Debug, Clone)]
pub struct RunFlags {
    pub no_everything_ipc: bool,
    pub no_backfill: bool,
    pub extra_excluded_dirs: Vec<String>,
}

pub open spec fn missing_index_text(index: Seq<char>) -> Seq<char> {
    "索引文件 "@ + index
        + " 不存在。findx2-service 不再自动建库；请先用 `findx2 index --output "@ + index
        + "` 建库（建库需管理员权限）后再启动服务。"@
}

/// The service does not start without an index.
pub fn require_index(index: &str, exists: bool) -> (r: Result<(), String>)
    ensures
        match r {
            Ok(_) => exists,
            Err(e) => !exists && e@ == missing_index_text(index@),
        },
{
    if exists {
        return Ok(());
    }
    let mut s = text::copied("索引文件 ");
    s.push_str(index);
    s.push_str(
        " 不存在。findx2-service 不再自动建库；请先用 `findx2 index --output ",
    );
    s.push_str(index);
    s.push_str("` 建库（建库需管理员权限）后再启动服务。");
    Err(s)
}

pub open spec fn opt_texts_of(v: Seq<Option<String>>) -> Seq<Option<Seq<char>>> {
    v.map_values(
        |s: Option<String>|
            match s {
                Some(t) => Some(t@),
                None => None,
            },
    )
}

/// The excluded directories of the index and those of the command line, each once; `extra` holds
/// the latter in normal form, or nothing for one that has none.
pub open spec fn excluded_union(
    have: Seq<Seq<char>>,
    extra: Seq<Option<Seq<char>>>,
) -> Seq<Seq<char>>
    decreases extra.len(),
{
    if extra.len() == 0 {
        have
    } else {
        let rest = excluded_union(have, extra.drop_last());
        match extra.last() {
            Some(d) if !rest.contains(d) => rest.push(d),
            _ => rest,
        }
    }
}

fn has_text(v: &Vec<String>, s: &str) -> (r: bool)
    ensures
        r == text::texts(v@).contains(s@),
{
    let ghost all = text::texts(v@);
    let mut i: usize = 0;
    while i < v.len()
        invariant
            i <= v.len(),
            all == text::texts(v@),
            forall|k: int| 0 <= k < i ==> #[trigger] all[k] != s@,
        decreases v.len() - i,
    {
        if text::same_text(&v[i], s) {
            assert(all[i as int] == s@);
            return true;
        }
        assert(all[i as int] == v@[i as int]@);
        i += 1;
    }
    assert(!all.contains(s@)) by {
        if all.contains(s@) {
            let k = choose|k: int| 0 <= k < all.len() && all[k] == s@;
            assert(all[k] != s@);
        }
    }
    false
}

pub fn union_excluded(have: &Vec<String>, extra: &Vec<Option<String>>) -> (r: Vec<String>)
    ensures
        text::texts(r@) == excluded_union(text::texts(have@), opt_texts_of(extra@)),
{
    let mut out = text::copied_all(have);
    let ghost all = opt_texts_of(extra@);
    let ghost base = text::texts(have@);
    let mut i: usize = 0;
    proof {
        assert(all.take(0) =~= Seq::empty());
    }
    while i < extra.len()
        invariant
            i <= extra.len(),
            all == opt_texts_of(extra@),
            base == text::texts(have@),
            text::texts(out@) == excluded_union(base, all.take(i as int)),
        decreases extra.len() - i,
    {
        let ghost had = text::texts(out@);
        proof {
            assert(all.take(i + 1).drop_last() =~= all.take(i as int));
            assert(all.take(i + 1).last() == all[i as int]);
        }
        match &extra[i] {
            Some(d) => {
                if !has_text(&out, d) {
                    out.push(text::copied(d));
                    proof {
                        assert(text::texts(out@) =~= had.push(d@));
                    }
                }
            },
            None => {},
        }
        i += 1;
    }
    assert(all.take(all.len() as int) =~= all);
    out
}

/// The union holds the directories of both sides and nothing else.
pub proof fn law_union(have: Seq<Seq<char>>, extra: Seq<Option<Seq<char>>>, d: Seq<char>)
    ensures
        excluded_union(have, extra).contains(d) <==> have.contains(d) || extra.contains(Some(d)),
    decreases extra.len(),
{
    if extra.len() > 0 {
        let init = extra.drop_last();
        let rest = excluded_union(have, init);
        let all = excluded_union(have, extra);
        law_union(have, init, d);
        if rest.contains(d) {
            let k = choose|k: int| 0 <= k < rest.len() && #[trigger] rest[k] == d;
            assert(all[k] == d);
        }
        if all.contains(d) && !rest.contains(d) {
            let k = choose|k: int| 0 <= k < all.len() && #[trigger] all[k] == d;
            if k < rest.len() {
                assert(rest[k] == d);
            }
            assert(extra[extra.len() - 1] == Some(d));
        }
        if init.contains(Some(d)) {
            let k = choose|k: int| 0 <= k < init.len() && #[trigger] init[k] == Some(d);
            assert(extra[k] == Some(d));
        }
        if extra.contains(Some(d)) && !init.contains(Some(d)) {
            let k = choose|k: int| 0 <= k < extra.len() && #[trigger] extra[k] == Some(d);
            if k < init.len() {
                assert(init[k] == Some(d));
            }
            assert(extra.last() == Some(d));
            if !rest.contains(d) {
                assert(all[rest.len() as int] == d);
            }
        }
    }
}

/// Where the compatibility window lives.
#[derive(Debug, Clone, Copy, PartialEq, Eq, Structural)]
pub enum EverythingMode {
    /// Nowhere.
    Off,
    /// In a helper process of a user's session, which is started again when it ends.
    Helper,
    /// In this process.
    Own,
}

/// A service in session 0 has no desktop of its own.
pub fn everything_mode(no_everything_ipc: bool, session_id: u32) -> (r: EverythingMode)
    ensures
        r == (if no_everything_ipc {
            EverythingMode::Off
        } else if session_id == 0 {
            EverythingMode::Helper
        } else {
            EverythingMode::Own
        }),
{
    if no_everything_ipc {
        EverythingMode::Off
    } else if session_id == 0 {
        EverythingMode::Helper
    } else {
        EverythingMode::Own
    }
}

/// What the status shows of the backfill where it is switched off by the command line.
pub fn backfill_notice(no_backfill: bool) -> (r: Option<String>)
    ensures
        match r {
            Some(s) => no_backfill && s@
                == "元数据回填已关闭（设置或 --no-backfill）；时间与大小筛选可能不准"@,
            None => !no_backfill,
        },
{
    if no_backfill {
        Some(
            text::copied(
                "元数据回填已关闭（设置或 --no-backfill）；时间与大小筛选可能不准",
            ),
        )
    } else {
        None
    }
}

proof fn lemma_index_letter(name: Seq<char>)
    ensures
        crate::volumes::index_letter(name) as u32 <= 'Z' as u32,
    decreases name.len(),
{
    if name.len() > 0 && !text::ascii_letter(name[0]) {
        lemma_index_letter(name.drop_first());
    }
}

/// The volumes to watch, each by its letter: those of the index, else that of the command line.
pub open spec fn watched(vols: Seq<VolumeState>, volume: Seq<char>) -> Seq<char> {
    if vols.len() == 0 {
        seq![crate::volumes::index_letter(volume)]
    } else {
        vols.map_values(|v: VolumeState| crate::watch::letter_of(v))
    }
}

pub fn volumes_to_watch(vols: &Vec<VolumeState>, volume: &str) -> (r: Vec<char>)
    ensures
        r@ == watched(vols@, volume@),
{
    let mut out: Vec<char> = Vec::new();
    if vols.len() == 0 {
        proof {
            lemma_index_letter(volume@);
        }
        out.push(volumes::index_letter_of(volume) as char);
        assert(out@ =~= seq![crate::volumes::index_letter(volume@)]);
        return out;
    }
    let mut i: usize = 0;
    while i < vols.len()
        invariant
            i <= vols.len(),
            out@ == vols@.take(i as int).map_values(
                |v: VolumeState| crate::watch::letter_of(v),
            ),
        decreases vols.len() - i,
    {
        out.push(text::upper_char(vols[i].volume_letter as char));
        proof {
            assert(out@ =~= vols@.take(i + 1).map_values(
                |v: VolumeState| crate::watch::letter_of(v),
            ));
        }
        i += 1;
    }
    assert(vols@.take(vols@.len() as int) =~= vols@);
    out
}

/// The path of a volume: its letter and a colon.
pub fn volume_of(letter: char) -> (r: String)
    ensures
        r@ == seq![letter, ':'],
{
    let mut s = String::new();
    s.push(letter);
    s.push(':');
    assert(s@ =~= seq![letter, ':']);
    s
}

/// The index is saved at most once a second.
pub fn save_interval(secs: u64) -> (r: u64)
    ensures
        r == (if secs < 1 {
            1
        } else {
            secs as int
        }),
{
    if secs < 1 {
        1
    } else {
        secs
    }
}

// ---- work that must not run twice at once -------------------------------------------------

/// Guards writing the index and rebuilding its search tables: while one thread is at it, the
/// others go on without, and come back at the next turn.
#[derive(Debug, Clone, Copy, PartialEq, Eq, Structural)]
pub struct Gate {
    pub taken: bool,
}

impl Gate {
    pub fn new() -> (r: Gate)
        ensures
            !r.taken,
    {
        Gate { taken: false }
    }

    /// Whether the work may begin; from then on it may not.
    pub fn acquire(&mut self) -> (r: bool)
        ensures
            r == !old(self).taken,
            final(self).taken,
    {
        let free = !self.taken;
        self.taken = true;
        free
    }

    /// The work ended, or could not begin after all.
    pub fn release(&mut self)
        ensures
            !final(self).taken,
    {
        self.taken = false;
    }
}

/// After the index was written: the search tables are rebuilt where too much has changed since,
/// and nobody is rebuilding them.
pub fn maybe_rebuild_trigram(gate: &mut Gate, pending_overflow: bool) -> (r: bool)
    ensures
        r == (pending_overflow && !old(gate).taken),
        final(gate).taken == (old(gate).taken || pending_overflow),
{
    if pending_overflow {
        gate.acquire()
    } else {
        false
    }
}

// ---- the order of a start -----------------------------------------------------------------

/// The steps of a start.
#[derive(Debug, Clone, Copy, PartialEq, Eq, Structural)]
pub enum StartStep {
    /// Listen for requests; they are answered as loading until the index is there.
    Listen,
    LoadIndex,
    /// Take deleted entries out, where there are many.
    Compact,
    /// Keep the excluded directories that `start_exclusions` gives, and mark the entries below them.
    Exclude,
    /// Let the requests see the index.
    Publish,
    /// Rebuild the search tables in the background.
    RebuildTables,
    /// Open the compatibility window, here or in a user's session, unless it is off.
    Window,
    /// Fill in sizes and times in the background, or show that this is off.
    Backfill,
    /// See that the change journals are large enough.
    Journals,
    /// Watch the volumes, each in a thread of its own.
    Watch,
    /// Wait until the thread that listens ends.
    Serve,
    Ended,
}

/// What the steps depend on.
#[derive(Debug, Clone, Copy, PartialEq, Eq, Structural)]
pub struct StartFacts {
    /// The command line excludes directories.
    pub excludes: bool,
    /// The index came without usable search tables.
    pub tables_missing: bool,
}

/// What the steps depend on under these switches, once the index is loaded. Taking deleted entries
/// out may change it, as `after_compaction` says.
pub fn start_facts(flags: &RunFlags, tables_missing: bool) -> (r: StartFacts)
    ensures
        r.excludes == (flags.extra_excluded_dirs@.len() > 0),
        r.tables_missing == tables_missing,
{
    StartFacts { excludes: flags.extra_excluded_dirs.len() > 0, tables_missing }
}

/// What the steps depend on once deleted entries were taken out, or not: there are no search tables
/// after that, since they name the entries by their old numbers.
pub open spec fn facts_after(f: StartFacts, outcome: AutoCompactOutcome) -> StartFacts {
    StartFacts { tables_missing: f.tables_missing || outcome is Compacted, ..f }
}

pub fn after_compaction(f: StartFacts, outcome: AutoCompactOutcome) -> (r: StartFacts)
    ensures
        r == facts_after(f, outcome),
{
    match outcome {
        AutoCompactOutcome::Compacted { .. } => StartFacts {
            excludes: f.excludes,
            tables_missing: true,
        },
        AutoCompactOutcome::Skipped => f,
    }
}

/// The excluded directories that a start keeps in the index and marks entries by: those that the
/// index has and those of the command line, in their usual spelling (nothing for one that was
/// rejected). Nothing is kept or marked where the command line has none.
pub fn start_exclusions(f: StartFacts, have: &Vec<String>, extra: &Vec<Option<String>>) -> (r:
    Option<Vec<String>>)
    ensures
        match r {
            Some(v) => f.excludes && text::texts(v@) == excluded_union(
                text::texts(have@),
                opt_texts_of(extra@),
            ),
            None => !f.excludes,
        },
{
    if f.excludes {
        Some(union_excluded(have, extra))
    } else {
        None
    }
}

/// The step after `s`.
pub open spec fn step_after(s: StartStep, f: StartFacts) -> StartStep {
    match s {
        StartStep::Listen => StartStep::LoadIndex,
        StartStep::LoadIndex => StartStep::Compact,
        StartStep::Compact => if f.excludes {
            StartStep::Exclude
        } else {
            StartStep::Publish
        },
        StartStep::Exclude => StartStep::Publish,
        StartStep::Publish => if f.tables_missing {
            StartStep::RebuildTables
        } else {
            StartStep::Window
        },
        StartStep::RebuildTables => StartStep::Window,
        StartStep::Window => StartStep::Backfill,
        StartStep::Backfill => StartStep::Journals,
        StartStep::Journals => StartStep::Watch,
        StartStep::Watch => StartStep::Serve,
        StartStep::Serve => StartStep::Ended,
        StartStep::Ended => StartStep::Ended,
    }
}

/// What a failure of the step says, where it ends the start; the other steps only log theirs.
pub open spec fn start_error(s: StartStep, reason: Seq<char>) -> Option<Seq<char>> {
    match s {
        StartStep::Listen => Some("spawn named pipe 线程失败: "@ + reason),
        StartStep::LoadIndex => Some(reason),
        StartStep::Compact => Some(reason),
        StartStep::Serve => Some("named pipe 线程异常结束"@),
        _ => None,
    }
}

/// The start of a service without an index ends at once; every other begins by listening.
pub fn first_step(index: &str, exists: bool) -> (r: Result<StartStep, String>)
    ensures
        match r {
            Ok(s) => exists && s == StartStep::Listen,
            Err(e) => !exists && e@ == missing_index_text(index@),
        },
{
    match require_index(index, exists) {
        Ok(_) => Ok(StartStep::Listen),
        Err(e) => Err(e),
    }
}

/// The step after `s`, which went well or failed for the given reason.
pub fn run_foreground(s: StartStep, f: StartFacts, failed: &Option<String>) -> (r: Result<
    StartStep,
    String,
>)
    ensures
        match (r, *failed) {
            (Ok(n), Some(e)) => start_error(s, e@) is None && n == step_after(s, f),
            (Ok(n), None) => n == step_after(s, f),
            (Err(t), Some(e)) => start_error(s, e@) == Some(t@),
            (Err(_), None) => false,
        },
{
    if let Some(e) = failed {
        match s {
            StartStep::Listen => {
                let mut t = text::copied("spawn named pipe 线程失败: ");
                t.push_str(e);
                return Err(t);
            },
            StartStep::LoadIndex => {
                return Err(text::copied(e));
            },
            StartStep::Compact => {
                return Err(text::copied(e));
            },
            StartStep::Serve => {
                return Err(text::copied("named pipe 线程异常结束"));
            },
            _ => {},
        }
    }
    Ok(
        match s {
            StartStep::Listen => StartStep::LoadIndex,
            StartStep::LoadIndex => StartStep::Compact,
            StartStep::Compact => if f.excludes {
                StartStep::Exclude
            } else {
                StartStep::Publish
            },
            StartStep::Exclude => StartStep::Publish,
            StartStep::Publish => if f.tables_missing {
                StartStep::RebuildTables
            } else {
                StartStep::Window
            },
            StartStep::RebuildTables => StartStep::Window,
            StartStep::Window => StartStep::Backfill,
            StartStep::Backfill => StartStep::Journals,
            StartStep::Journals => StartStep::Watch,
            StartStep::Watch => StartStep::Serve,
            StartStep::Serve => StartStep::Ended,
            StartStep::Ended => StartStep::Ended,
        },
    )
}

/// After deleted entries were taken out the search tables are rebuilt once the index is in use.
pub proof fn law_tables_are_rebuilt_after_compaction(f: StartFacts, outcome: AutoCompactOutcome)
    requires
        outcome is Compacted,
    ensures
        step_after(StartStep::Publish, facts_after(f, outcome)) == StartStep::RebuildTables,
{
}

/// The step that a start is at after `n` steps that all went well.
pub open spec fn step_number(n: nat, f: StartFacts) -> StartStep
    decreases n,
{
    if n == 0 {
        StartStep::Listen
    } else {
        step_after(step_number((n - 1) as nat, f), f)
    }
}

/// Requests are listened for before the index is loaded; deleted and excluded entries are dealt
/// with before anyone sees the index; only then do the window, the backfill and the watchers work
/// on it; and every start gets that far.
pub proof fn law_start_order(f: StartFacts)
    ensures
        step_number(0, f) == StartStep::Listen,
        step_number(1, f) == StartStep::LoadIndex,
        step_number(2, f) == StartStep::Compact,
        f.excludes ==> step_number(3, f) == StartStep::Exclude && step_number(4, f)
            == StartStep::Publish,
        !f.excludes ==> step_number(3, f) == StartStep::Publish,
        forall|n: nat|
            #![trigger step_number(n, f)]
            step_number(n, f) == StartStep::Window || step_number(n, f) == StartStep::Backfill
                || step_number(n, f) == StartStep::Watch ==> n >= 4,
        step_number(11, f) == StartStep::Ended || step_number(11, f) == StartStep::Serve,
{
    reveal_with_fuel(step_number, 12);
}

/// The steps of a start follow one another in this order; only marking excluded directories and
/// rebuilding the tables may be passed over, and only where there is nothing to do.
pub proof fn law_steps_of_a_start(s: StartStep, f: StartFacts)
    ensures
        step_after(StartStep::Listen, f) == StartStep::LoadIndex,
        step_after(StartStep::LoadIndex, f) == StartStep::Compact,
        f.excludes ==> step_after(StartStep::Compact, f) == StartStep::Exclude,
        !f.excludes ==> step_after(StartStep::Compact, f) == StartStep::Publish,
        step_after(StartStep::Exclude, f) == StartStep::Publish,
        f.tables_missing ==> step_after(StartStep::Publish, f) == StartStep::RebuildTables,
        !f.tables_missing ==> step_after(StartStep::Publish, f) == StartStep::Window,
        step_after(StartStep::RebuildTables, f) == StartStep::Window,
        step_after(StartStep::Window, f) == StartStep::Backfill,
        step_after(StartStep::Backfill, f) == StartStep::Journals,
        step_after(StartStep::Journals, f) == StartStep::Watch,
        step_after(StartStep::Watch, f) == StartStep::Serve,
        step_after(StartStep::Serve, f) == StartStep::Ended,
{
}

/// Listening, loading, compacting and serving end the start where they fail; no other step does.
pub proof fn law_failures_that_end_a_start(s: StartStep, e: Seq<char>)
    ensures
        start_error(s, e) is Some <==> s == StartStep::Listen || s == StartStep::LoadIndex || s
            == StartStep::Compact || s == StartStep::Serve,
        start_error(StartStep::LoadIndex, e) == Some(e),
        start_error(StartStep::Compact, e) == Some(e),
{
}

/// Every volume of the index is watched under its letter; without any, that of the command line is.
pub proof fn law_watched_volumes(vols: Seq<VolumeState>, volume: Seq<char>, i: int)
    requires
        0 <= i < vols.len(),
    ensures
        watched(vols, volume).len() == vols.len(),
        watched(vols, volume)[i] == crate::watch::letter_of(vols[i]),
        watched(Seq::empty(), volume) == seq![crate::volumes::index_letter(volume)],
{
}

} // verus!
