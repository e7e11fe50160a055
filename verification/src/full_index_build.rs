//! Building an index of several volumes: what the progress file says at each step, and when the
//! build fails.
use vstd::prelude::*;
use crate::text;

verus! {

/// How often the progress file is refreshed while volumes are scanned, in milliseconds.
pub const TICK_MILLIS: u64 = 500;

/// The steps of a build.
#[derive(Debug, Clone, Copy, PartialEq, Eq, Structural)]
pub enum BuildPhase {
    Starting,
    Scanning,
    Merging,
    Writing,
}

pub open spec fn phase_name(p: BuildPhase) -> Seq<char> {
    match p {
        BuildPhase::Starting => "starting"@,
        BuildPhase::Scanning => "scanning"@,
        BuildPhase::Merging => "merging"@,
        BuildPhase::Writing => "writing"@,
    }
}

impl BuildPhase {
    /// The name of the step in the progress file.
    pub fn name(&self) -> (r: String)
        ensures
            r@ == phase_name(*self),
    {
        match self {
            BuildPhase::Starting => text::copied("starting"),
            BuildPhase::Scanning => text::copied("scanning"),
            BuildPhase::Merging => text::copied("merging"),
            BuildPhase::Writing => text::copied("writing"),
        }
    }
}

/// What the progress file says.
#[derive(Debug)]
pub struct IndexProgress {
    pub phase: BuildPhase,
    pub volumes_total: u64,
    pub volumes_completed: u64,
    pub current_volume: Option<String>,
    pub entries_indexed: u64,
    pub message: String,
}

pub struct IndexProgressView {
    pub phase: BuildPhase,
    pub volumes_total: u64,
    pub volumes_completed: u64,
    pub current_volume: Option<Seq<char>>,
    pub entries_indexed: u64,
    pub message: Seq<char>,
}

impl View for IndexProgress {
    type V = IndexProgressView;

    open spec fn view(&self) -> IndexProgressView {
        IndexProgressView {
            phase: self.phase,
            volumes_total: self.volumes_total,
            volumes_completed: self.volumes_completed,
            current_volume: match self.current_volume {
                Some(v) => Some(v@),
                None => None,
            },
            entries_indexed: self.entries_indexed,
            message: self.message@,
        }
    }
}

/// A build under way: how many volumes there are, how many are done, how many entries those
/// brought, and which directories are excluded.
#[derive(Debug)]
pub struct IndexBuild {
    pub volumes_total: u64,
    pub volumes_completed: u64,
    pub entries: u64,
    pub excluded: Vec<String>,
}

pub open spec fn starting(b: IndexBuild) -> IndexProgressView {
    IndexProgressView {
        phase: BuildPhase::Starting,
        volumes_total: b.volumes_total,
        volumes_completed: 0,
        current_volume: None,
        entries_indexed: 0,
        message: "准备扫描 "@ + text::decimal(b.volumes_total as nat) + " 个卷…"@,
    }
}

pub open spec fn scanning(b: IndexBuild, live: u64) -> IndexProgressView {
    IndexProgressView {
        phase: BuildPhase::Scanning,
        volumes_total: b.volumes_total,
        volumes_completed: b.volumes_completed,
        current_volume: None,
        entries_indexed: live,
        message: "MFT 枚举中…已收录 "@ + text::decimal(live as nat) + " 条（"@ + text::decimal(
            b.volumes_completed as nat,
        ) + "/"@ + text::decimal(b.volumes_total as nat) + " 卷已完成）"@,
    }
}

pub open spec fn volume_done(b: IndexBuild, volume: Seq<char>) -> IndexProgressView {
    IndexProgressView {
        phase: BuildPhase::Scanning,
        volumes_total: b.volumes_total,
        volumes_completed: b.volumes_completed,
        current_volume: Some(volume),
        entries_indexed: b.entries,
        message: "卷 "@ + volume + " 已入索引（"@ + text::decimal(b.volumes_completed as nat)
            + "/"@ + text::decimal(b.volumes_total as nat) + " 卷，累计约 "@ + text::decimal(
            b.entries as nat,
        ) + " 条）"@,
    }
}

pub open spec fn merging(b: IndexBuild, stores: int, entries: u64) -> IndexProgressView {
    IndexProgressView {
        phase: BuildPhase::Merging,
        volumes_total: b.volumes_total,
        volumes_completed: b.volumes_total,
        current_volume: None,
        entries_indexed: entries,
        message: if stores > 1 {
            "合并多卷索引…"@
        } else {
            "整理内存索引…"@
        },
    }
}

pub open spec fn writing(b: IndexBuild, output: Seq<char>, entries: u64) -> IndexProgressView {
    IndexProgressView {
        phase: BuildPhase::Writing,
        volumes_total: b.volumes_total,
        volumes_completed: b.volumes_total,
        current_volume: None,
        entries_indexed: entries,
        message: "写入 "@ + output + "（"@ + text::decimal(entries as nat) + " 条）…"@,
    }
}

/// Begins a build of so many volumes: the build, and what the progress file says at its start.
/// `normalized` holds each directory that the user excludes in its usual spelling, and nothing for
/// one that was rejected.
pub fn build_full_disk_index(volumes: u64, normalized: Vec<Option<String>>) -> (r: (
    IndexBuild,
    IndexProgress,
))
    ensures
        r.0.volumes_total == volumes,
        r.0.volumes_completed == 0,
        r.0.entries == 0,
        text::texts(r.0.excluded@) == accepted(failures(normalized@)),
        r.1@ == starting(r.0),
{
    let b = IndexBuild {
        volumes_total: volumes,
        volumes_completed: 0,
        entries: 0,
        excluded: exclusions(normalized),
    };
    let mut message = text::copied("准备扫描 ");
    message.push_str(&text::decimal_text(volumes));
    message.push_str(" 个卷…");
    (
        b,
        IndexProgress {
            phase: BuildPhase::Starting,
            volumes_total: volumes,
            volumes_completed: 0,
            current_volume: None,
            entries_indexed: 0,
            message,
        },
    )
}

impl IndexBuild {
    /// While volumes are scanned, with `live` entries found so far.
    pub fn tick(&self, live: u64) -> (r: IndexProgress)
        ensures
            r@ == scanning(*self, live),
    {
        let mut message = text::copied("MFT 枚举中…已收录 ");
        message.push_str(&text::decimal_text(live));
        message.push_str(" 条（");
        message.push_str(&text::decimal_text(self.volumes_completed));
        message.push_str("/");
        message.push_str(&text::decimal_text(self.volumes_total));
        message.push_str(" 卷已完成）");
        IndexProgress {
            phase: BuildPhase::Scanning,
            volumes_total: self.volumes_total,
            volumes_completed: self.volumes_completed,
            current_volume: None,
            entries_indexed: live,
            message,
        }
    }

    /// A volume was scanned and brought `added` entries.
    pub fn volume_finished(&mut self, volume: &str, added: u64) -> (r: IndexProgress)
        requires
            old(self).volumes_completed < u64::MAX,
            old(self).entries + added <= u64::MAX,
        ensures
            *final(self) == (IndexBuild {
                volumes_completed: (old(self).volumes_completed + 1) as u64,
                entries: (old(self).entries + added) as u64,
                ..*old(self)
            }),
            r@ == volume_done(*final(self), volume@),
    {
        self.volumes_completed = self.volumes_completed + 1;
        self.entries = self.entries + added;
        let mut message = text::copied("卷 ");
        message.push_str(volume);
        message.push_str(" 已入索引（");
        message.push_str(&text::decimal_text(self.volumes_completed));
        message.push_str("/");
        message.push_str(&text::decimal_text(self.volumes_total));
        message.push_str(" 卷，累计约 ");
        message.push_str(&text::decimal_text(self.entries));
        message.push_str(" 条）");
        IndexProgress {
            phase: BuildPhase::Scanning,
            volumes_total: self.volumes_total,
            volumes_completed: self.volumes_completed,
            current_volume: Some(text::copied(volume)),
            entries_indexed: self.entries,
            message,
        }
    }

    /// All volumes are scanned; `stores` partial indexes with `entries` entries become one.
    pub fn merge_started(&self, stores: usize, entries: u64) -> (r: IndexProgress)
        ensures
            r@ == merging(*self, stores as int, entries),
    {
        IndexProgress {
            phase: BuildPhase::Merging,
            volumes_total: self.volumes_total,
            volumes_completed: self.volumes_total,
            current_volume: None,
            entries_indexed: entries,
            message: if stores > 1 {
                text::copied("合并多卷索引…")
            } else {
                text::copied("整理内存索引…")
            },
        }
    }

    /// The index is being written.
    pub fn write_started(&self, output: &str, entries: u64) -> (r: IndexProgress)
        ensures
            r@ == writing(*self, output@, entries),
    {
        let mut message = text::copied("写入 ");
        message.push_str(output);
        message.push_str("（");
        message.push_str(&text::decimal_text(entries));
        message.push_str(" 条）…");
        IndexProgress {
            phase: BuildPhase::Writing,
            volumes_total: self.volumes_total,
            volumes_completed: self.volumes_total,
            current_volume: None,
            entries_indexed: entries,
            message,
        }
    }
}

/// The first failure among the volumes, in the order in which they were asked for.
pub open spec fn first_failure(results: Seq<Option<Seq<char>>>) -> Option<Seq<char>>
    decreases results.len(),
{
    if results.len() == 0 {
        None
    } else {
        match results[0] {
            Some(e) => Some(e),
            None => first_failure(results.drop_first()),
        }
    }
}

pub open spec fn failures(v: Seq<Option<String>>) -> Seq<Option<Seq<char>>> {
    v.map_values(
        |s: Option<String>|
            match s {
                Some(t) => Some(t@),
                None => None,
            },
    )
}

/// A build fails where a volume failed (`Some`), with the error of the first that did; no index
/// is written then.
pub fn build_failure(results: &Vec<Option<String>>) -> (r: Option<String>)
    ensures
        (match r {
            Some(e) => Some(e@),
            None => None,
        }) == first_failure(failures(results@)),
{
    let ghost all = failures(results@);
    let mut i: usize = 0;
    proof {
        assert(all.skip(0) =~= all);
    }
    while i < results.len()
        invariant
            i <= results.len(),
            all == failures(results@),
            first_failure(all) == first_failure(all.skip(i as int)),
        decreases results.len() - i,
    {
        proof {
            assert(all.skip(i as int)[0] == all[i as int]);
            assert(all.skip(i as int).drop_first() =~= all.skip(i + 1));
        }
        match &results[i] {
            Some(e) => {
                return Some(text::copied(e));
            },
            None => {},
        }
        i += 1;
    }
    None
}

/// The line that a finished build prints.
pub fn finished_line(output: &str, entries: u64) -> (r: String)
    ensures
        r@ == "已写入 "@ + output@ + "，条目 "@ + text::decimal(entries as nat),
{
    let mut s = text::copied("已写入 ");
    s.push_str(output);
    s.push_str("，条目 ");
    s.push_str(&text::decimal_text(entries));
    s
}

/// Once the volumes are put together the progress file says that all of them are done.
pub proof fn law_all_volumes_done(b: IndexBuild, stores: int, output: Seq<char>, entries: u64)
    ensures
        merging(b, stores, entries).volumes_completed == b.volumes_total,
        writing(b, output, entries).volumes_completed == b.volumes_total,
{
}

/// There is a failure exactly where some volume failed.
pub proof fn law_one_failure_fails_all(results: Seq<Option<Seq<char>>>)
    ensures
        first_failure(results) is Some <==> exists|i: int|
            0 <= i < results.len() && (#[trigger] results[i]) is Some,
    decreases results.len(),
{
    if results.len() > 0 && results[0] is None {
        let rest = results.drop_first();
        law_one_failure_fails_all(rest);
        if first_failure(rest) is Some {
            let i = choose|i: int| 0 <= i < rest.len() && (#[trigger] rest[i]) is Some;
            assert(results[i + 1] is Some);
        }
        if exists|i: int| 0 <= i < results.len() && (#[trigger] results[i]) is Some {
            let i = choose|i: int| 0 <= i < results.len() && (#[trigger] results[i]) is Some;
            assert(rest[i - 1] is Some);
        }
    }
}

// ---- after the scan -----------------------------------------------------------------------

/// The directories that are excluded: those that were accepted, in their usual spelling and in the
/// order in which they were given.
pub open spec fn accepted(normalized: Seq<Option<Seq<char>>>) -> Seq<Seq<char>>
    decreases normalized.len(),
{
    if normalized.len() == 0 {
        Seq::empty()
    } else {
        let rest = accepted(normalized.drop_last());
        match normalized.last() {
            Some(d) => rest.push(d),
            None => rest,
        }
    }
}

/// The excluded directories of a build: `normalized` holds each directory that was given in its
/// usual spelling, and nothing for one that was rejected.
pub fn exclusions(normalized: Vec<Option<String>>) -> (r: Vec<String>)
    ensures
        text::texts(r@) == accepted(failures(normalized@)),
{
    let ghost all = normalized@;
    let mut out: Vec<String> = Vec::new();
    proof {
        assert(failures(all.take(0)) =~= Seq::empty());
        assert(text::texts(out@) =~= Seq::empty());
    }
    for d in it: normalized
        invariant
            it.seq() == all,
            text::texts(out@) == accepted(failures(all.take(it.index() as int))),
    {
        let ghost seen = failures(all.take(it.index() as int));
        let ghost had = text::texts(out@);
        proof {
            assert(failures(all.take(it.index() + 1)) =~= seen.push(text::opt_view(d)));
            assert(seen.push(text::opt_view(d)).drop_last() =~= seen);
        }
        if let Some(t) = d {
            out.push(t);
            proof {
                assert(text::texts(out@) =~= had.push(t@));
            }
        }
    }
    proof {
        assert(all.take(all.len() as int) =~= all);
    }
    out
}

/// The steps once all volumes are scanned.
#[derive(Debug, PartialEq, Eq)]
pub enum BuildStep {
    /// Make one index of those of the volumes.
    Merge,
    /// Keep these excluded directories in the index, and mark the entries below them.
    Exclude(Vec<String>),
    /// Write the index.
    Write,
    /// Write these excluded directories beside it, also where there are none.
    WriteExclusions(Vec<String>),
    RemoveProgress,
    Done,
}

pub enum BuildStepView {
    Merge,
    Exclude(Seq<Seq<char>>),
    Write,
    WriteExclusions(Seq<Seq<char>>),
    RemoveProgress,
    Done,
}

impl View for BuildStep {
    type V = BuildStepView;

    open spec fn view(&self) -> BuildStepView {
        match *self {
            BuildStep::Merge => BuildStepView::Merge,
            BuildStep::Exclude(l) => BuildStepView::Exclude(text::texts(l@)),
            BuildStep::Write => BuildStepView::Write,
            BuildStep::WriteExclusions(l) => BuildStepView::WriteExclusions(text::texts(l@)),
            BuildStep::RemoveProgress => BuildStepView::RemoveProgress,
            BuildStep::Done => BuildStepView::Done,
        }
    }
}

/// The first step after the scan: the first volume that failed fails the build.
pub fn first_build_step(results: &Vec<Option<String>>) -> (r: Result<BuildStep, String>)
    ensures
        match r {
            Ok(s) => s@ == BuildStepView::Merge && first_failure(failures(results@)) is None,
            Err(e) => first_failure(failures(results@)) == Some(e@),
        },
{
    match build_failure(results) {
        Some(e) => Err(e),
        None => Ok(BuildStep::Merge),
    }
}

/// The step after `s` in a build that excludes the directories of `list`.
pub open spec fn build_step_after(s: BuildStepView, list: Seq<Seq<char>>) -> BuildStepView {
    match s {
        BuildStepView::Merge => if list.len() > 0 {
            BuildStepView::Exclude(list)
        } else {
            BuildStepView::Write
        },
        BuildStepView::Exclude(_) => BuildStepView::Write,
        BuildStepView::Write => BuildStepView::WriteExclusions(list),
        BuildStepView::WriteExclusions(_) => BuildStepView::RemoveProgress,
        BuildStepView::RemoveProgress => BuildStepView::Done,
        BuildStepView::Done => BuildStepView::Done,
    }
}

impl IndexBuild {
    /// The step after one that went well; a failure ends the build, except that of removing the
    /// progress file.
    pub fn next_build_step(&self, s: &BuildStep, failed: &Option<String>) -> (r: Result<
        BuildStep,
        String,
    >)
        ensures
            match (r, *failed) {
                (Ok(n), None) => n@ == build_step_after(s@, text::texts(self.excluded@)),
                (Ok(n), Some(_)) => s@ == BuildStepView::RemoveProgress && n@
                    == BuildStepView::Done,
                (Err(t), Some(e)) => s@ != BuildStepView::RemoveProgress && t@ == e@,
                (Err(_), None) => false,
            },
    {
        if let Some(e) = failed {
            return match s {
                BuildStep::RemoveProgress => Ok(BuildStep::Done),
                _ => Err(text::copied(e)),
            };
        }
        Ok(
            match s {
                BuildStep::Merge => if self.excluded.len() > 0 {
                    BuildStep::Exclude(text::copied_all(&self.excluded))
                } else {
                    BuildStep::Write
                },
                BuildStep::Exclude(_) => BuildStep::Write,
                BuildStep::Write => BuildStep::WriteExclusions(text::copied_all(&self.excluded)),
                BuildStep::WriteExclusions(_) => BuildStep::RemoveProgress,
                BuildStep::RemoveProgress => BuildStep::Done,
                BuildStep::Done => BuildStep::Done,
            },
        )
    }
}

/// The progress file goes only when the index and its excluded directories are written, so that it
/// stays behind after a build that failed.
pub proof fn law_progress_file_goes_last(s: BuildStepView, list: Seq<Seq<char>>)
    ensures
        build_step_after(s, list) == BuildStepView::RemoveProgress <==> s is WriteExclusions,
        build_step_after(s, list) is WriteExclusions <==> s == BuildStepView::Write,
{
}

/// The step that a build is at after `n` steps from the merge on.
pub open spec fn build_step_at(n: nat, list: Seq<Seq<char>>) -> BuildStepView
    decreases n,
{
    if n == 0 {
        BuildStepView::Merge
    } else {
        build_step_after(build_step_at((n - 1) as nat, list), list)
    }
}

/// The entries are marked by the very list that is written beside the index. The list is written by
/// every build that ends well, and entries are marked exactly where it is not empty.
pub proof fn law_one_list_of_exclusions(list: Seq<Seq<char>>, n: nat)
    ensures
        build_step_at(n, list) matches BuildStepView::Exclude(l) ==> l == list && list.len() > 0,
        build_step_at(n, list) matches BuildStepView::WriteExclusions(l) ==> l == list,
        list.len() > 0 ==> build_step_at(1, list) == BuildStepView::Exclude(list)
            && build_step_at(3, list) == BuildStepView::WriteExclusions(list) && build_step_at(
            5,
            list,
        ) == BuildStepView::Done,
        list.len() == 0 ==> build_step_at(2, list) == BuildStepView::WriteExclusions(list)
            && build_step_at(4, list) == BuildStepView::Done,
    decreases n,
{
    reveal_with_fuel(build_step_at, 6);
    if n > 0 {
        law_one_list_of_exclusions(list, (n - 1) as nat);
    }
}

/// The numbers of the progress file are those of the build: all volumes, those that are done, the
/// volume that just ended, and the entries found so far.
pub proof fn law_progress_numbers(
    b: IndexBuild,
    live: u64,
    volume: Seq<char>,
    stores: int,
    entries: u64,
    output: Seq<char>,
)
    ensures
        ({
            let p = starting(b);
            p.phase == BuildPhase::Starting && p.volumes_total == b.volumes_total
                && p.volumes_completed == 0 && p.entries_indexed == 0 && p.current_volume is None
        }),
        ({
            let p = scanning(b, live);
            p.phase == BuildPhase::Scanning && p.volumes_total == b.volumes_total
                && p.volumes_completed == b.volumes_completed && p.entries_indexed == live
                && p.current_volume is None
        }),
        ({
            let p = volume_done(b, volume);
            p.phase == BuildPhase::Scanning && p.volumes_total == b.volumes_total
                && p.volumes_completed == b.volumes_completed && p.entries_indexed == b.entries
                && p.current_volume == Some(volume)
        }),
        ({
            let p = merging(b, stores, entries);
            p.phase == BuildPhase::Merging && p.volumes_total == b.volumes_total && p.entries_indexed
                == entries && p.current_volume is None
        }),
        ({
            let p = writing(b, output, entries);
            p.phase == BuildPhase::Writing && p.volumes_total == b.volumes_total && p.entries_indexed
                == entries && p.current_volume is None
        }),
{
}

/// The failure of a build is that of the first volume that failed.
pub proof fn law_first_failure_is_reported(results: Seq<Option<Seq<char>>>, i: int, e: Seq<char>)
    requires
        0 <= i < results.len(),
        results[i] == Some(e),
        forall|j: int| 0 <= j < i ==> (#[trigger] results[j]) is None,
    ensures
        first_failure(results) == Some(e),
    decreases results.len(),
{
    if i > 0 {
        let t = results.drop_first();
        assert(results[0] is None);
        assert forall|j: int| 0 <= j < i - 1 implies (#[trigger] t[j]) is None by {
            assert(t[j] == results[j + 1]);
        }
        law_first_failure_is_reported(t, i - 1, e);
    }
}

/// A directory is excluded exactly where it was given and accepted.
pub proof fn law_accepted_directories(normalized: Seq<Option<Seq<char>>>, d: Seq<char>)
    ensures
        accepted(normalized).contains(d) <==> normalized.contains(Some(d)),
    decreases normalized.len(),
{
    let all = accepted(normalized);
    if normalized.len() > 0 {
        let t = normalized.drop_last();
        let rest = accepted(t);
        law_accepted_directories(t, d);
        assert(normalized[normalized.len() - 1] == normalized.last());
        if t.contains(Some(d)) {
            let k = choose|k: int| 0 <= k < t.len() && t[k] == Some(d);
            assert(normalized[k] == Some(d));
        }
        if normalized.contains(Some(d)) {
            let k = choose|k: int| 0 <= k < normalized.len() && normalized[k] == Some(d);
            if k < t.len() {
                assert(t[k] == Some(d));
            } else {
                assert(all[rest.len() as int] == d);
            }
        }
        if rest.contains(d) {
            let k = choose|k: int| 0 <= k < rest.len() && rest[k] == d;
            assert(all[k] == d);
        }
        if all.contains(d) {
            let k = choose|k: int| 0 <= k < all.len() && all[k] == d;
            if k < rest.len() {
                assert(rest[k] == d);
            }
        }
    }
}

/// The names of the stages of a build, in their order.
pub proof fn law_names_of_the_stages()
    ensures
        phase_name(BuildPhase::Starting) == "starting"@,
        phase_name(BuildPhase::Scanning) == "scanning"@,
        phase_name(BuildPhase::Merging) == "merging"@,
        phase_name(BuildPhase::Writing) == "writing"@,
{
}

/// The message of a finished volume names it and tells how many of all volumes are done and how many
/// entries there are by then.
pub proof fn law_message_of_a_finished_volume(b: IndexBuild, volume: Seq<char>)
    ensures
        volume_done(b, volume).message == "卷 "@ + volume + " 已入索引（"@ + text::decimal(
            b.volumes_completed as nat,
        ) + "/"@ + text::decimal(b.volumes_total as nat) + " 卷，累计约 "@ + text::decimal(
            b.entries as nat,
        ) + " 条）"@,
{
}

} // verus!
