//! How far the loading of an index has come: the stage, the time since it began and the number of
//! entries, for as long as it lasts.
use vstd::prelude::*;
use crate::text;

verus! {

/// The stages of loading, in order.
#[derive(Debug, Clone, Copy, PartialEq, Eq, Structural)]
pub enum LoadPhase {
    Open,
    Header,
    Entries,
    Dirs,
    Frns,
    Indexes,
    Filters,
    CjkBitmap,
}

/// How many stages loading has.
pub const LOAD_PHASES: u32 = 8;

/// Deleted entries are removed in a stage of its own, after loading.
pub const COMPACTION_PHASE: u32 = 9;

/// What the status line calls a stage.
pub open spec fn phase_label(p: LoadPhase) -> Seq<char> {
    match p {
        LoadPhase::Open => "打开索引文件"@,
        LoadPhase::Header => "读文件头"@,
        LoadPhase::Entries => "解析条目"@,
        LoadPhase::Dirs => "解析目录"@,
        LoadPhase::Frns => "解析 FRN"@,
        LoadPhase::Indexes => "构建索引表"@,
        LoadPhase::Filters => "过滤器"@,
        LoadPhase::CjkBitmap => "CJK 位图"@,
    }
}

/// The number of a stage, from 1.
pub open spec fn ordinal(p: LoadPhase) -> u32 {
    match p {
        LoadPhase::Open => 1,
        LoadPhase::Header => 2,
        LoadPhase::Entries => 3,
        LoadPhase::Dirs => 4,
        LoadPhase::Frns => 5,
        LoadPhase::Indexes => 6,
        LoadPhase::Filters => 7,
        LoadPhase::CjkBitmap => 8,
    }
}

impl LoadPhase {
    pub fn label(&self) -> (r: String)
        ensures
            r@ == phase_label(*self),
    {
        match self {
            LoadPhase::Open => text::copied("打开索引文件"),
            LoadPhase::Header => text::copied("读文件头"),
            LoadPhase::Entries => text::copied("解析条目"),
            LoadPhase::Dirs => text::copied("解析目录"),
            LoadPhase::Frns => text::copied("解析 FRN"),
            LoadPhase::Indexes => text::copied("构建索引表"),
            LoadPhase::Filters => text::copied("过滤器"),
            LoadPhase::CjkBitmap => text::copied("CJK 位图"),
        }
    }
}

pub fn phase_ordinal(p: LoadPhase) -> (r: u32)
    ensures
        r == ordinal(p),
{
    match p {
        LoadPhase::Open => 1,
        LoadPhase::Header => 2,
        LoadPhase::Entries => 3,
        LoadPhase::Dirs => 4,
        LoadPhase::Frns => 5,
        LoadPhase::Indexes => 6,
        LoadPhase::Filters => 7,
        LoadPhase::CjkBitmap => 8,
    }
}

/// What has been noted about loading. Times are nanoseconds of a clock that does not run
/// backwards.
#[derive(Debug, Clone, Copy, PartialEq, Eq, Structural)]
pub struct LoadState {
    pub phase: Option<LoadPhase>,
    pub started: Option<u128>,
    pub finished: Option<u128>,
    pub entry_count: u64,
    /// Deleted entries are being removed: how many there are.
    pub compacting: Option<u64>,
}

/// Loading as it stands at one moment; there is none before it begins and after it ends.
#[derive(Debug, Clone)]
pub struct LoadSnapshot {
    pub label: String,
    pub started: u128,
    /// The number of the current stage, from 1.
    pub phases_done: u32,
    pub phases_total: u32,
    /// The number of entries, 0 until it is known.
    pub entry_count: u64,
}

pub struct LoadSnapshotView {
    pub label: Seq<char>,
    pub started: u128,
    pub phases_done: u32,
    pub phases_total: u32,
    pub entry_count: u64,
}

impl View for LoadSnapshot {
    type V = LoadSnapshotView;

    open spec fn view(&self) -> LoadSnapshotView {
        LoadSnapshotView {
            label: self.label@,
            started: self.started,
            phases_done: self.phases_done,
            phases_total: self.phases_total,
            entry_count: self.entry_count,
        }
    }
}

impl LoadState {
    /// Nothing has been loaded yet.
    pub fn new() -> (r: LoadState)
        ensures
            r == (LoadState {
                phase: None,
                started: None,
                finished: None,
                entry_count: 0,
                compacting: None,
            }),
    {
        LoadState { phase: None, started: None, finished: None, entry_count: 0, compacting: None }
    }
}

/// A stage begins. The first stage begins a new load.
pub fn note_phase(s: &mut LoadState, p: LoadPhase, now: u128)
    ensures
        *final(s) == (if p == LoadPhase::Open {
            LoadState {
                phase: Some(p),
                started: Some(now),
                finished: None,
                entry_count: 0,
                ..*old(s)
            }
        } else {
            LoadState { phase: Some(p), ..*old(s) }
        }),
{
    if p == LoadPhase::Open {
        s.entry_count = 0;
        s.finished = None;
        s.started = Some(now);
    }
    s.phase = Some(p);
}

/// The number of entries is known.
pub fn note_entry_count(s: &mut LoadState, n: u64)
    ensures
        *final(s) == (LoadState { entry_count: n, ..*old(s) }),
{
    s.entry_count = n;
}

/// Loading has ended, well or badly.
pub fn note_finished(s: &mut LoadState, now: u128)
    ensures
        *final(s) == (LoadState { phase: None, finished: Some(now), ..*old(s) }),
{
    s.phase = None;
    s.finished = Some(now);
}

/// The removal of `tombstones` deleted entries begins.
pub fn note_compaction_started(s: &mut LoadState, tombstones: u64)
    ensures
        *final(s) == (LoadState { compacting: Some(tombstones), ..*old(s) }),
{
    s.compacting = Some(tombstones);
}

/// The removal of deleted entries has ended, well or badly.
pub fn note_compaction_finished(s: &mut LoadState)
    ensures
        *final(s) == (LoadState { compacting: None, ..*old(s) }),
{
    s.compacting = None;
}

/// What the state shows at the time `now`.
pub open spec fn shown(s: LoadState, now: u128) -> Option<LoadSnapshotView> {
    let started = match s.started {
        Some(t) => t,
        None => now,
    };
    match s.compacting {
        Some(n) => Some(
            LoadSnapshotView {
                label: "自动压缩墓碑"@,
                started,
                phases_done: COMPACTION_PHASE,
                phases_total: COMPACTION_PHASE,
                entry_count: n,
            },
        ),
        None => match s.phase {
            Some(p) if s.finished is None => Some(
                LoadSnapshotView {
                    label: phase_label(p),
                    started,
                    phases_done: ordinal(p),
                    phases_total: LOAD_PHASES,
                    entry_count: s.entry_count,
                },
            ),
            _ => None,
        },
    }
}

pub fn snapshot(s: &LoadState, now: u128) -> (r: Option<LoadSnapshot>)
    ensures
        (match r {
            Some(v) => Some(v@),
            None => None,
        }) == shown(*s, now),
{
    let started: u128 = match s.started {
        Some(t) => t,
        None => now,
    };
    match s.compacting {
        Some(n) => {
            return Some(
                LoadSnapshot {
                    label: text::copied("自动压缩墓碑"),
                    started,
                    phases_done: COMPACTION_PHASE,
                    phases_total: COMPACTION_PHASE,
                    entry_count: n,
                },
            );
        },
        None => {},
    }
    if s.finished.is_some() {
        return None;
    }
    match s.phase {
        Some(p) => Some(
            LoadSnapshot {
                label: p.label(),
                started,
                phases_done: phase_ordinal(p),
                phases_total: LOAD_PHASES,
                entry_count: s.entry_count,
            },
        ),
        None => None,
    }
}

/// The full seconds since `started`.
pub open spec fn seconds_since(started: u128, now: u128) -> int {
    if now > started {
        (now - started) / 1_000_000_000
    } else {
        0
    }
}

/// The full seconds that loading has taken; more than the largest number counts as that.
pub fn elapsed_secs(snap: &LoadSnapshot, now: u128) -> (r: u64)
    ensures
        r == (if seconds_since(snap.started, now) > u64::MAX {
            u64::MAX as int
        } else {
            seconds_since(snap.started, now)
        }),
{
    let secs: u128 = if now > snap.started {
        (now - snap.started) / 1_000_000_000
    } else {
        0
    };
    if secs > u64::MAX as u128 {
        u64::MAX
    } else {
        secs as u64
    }
}

/// A number of entries in words: from a hundred million on in units of that, to one decimal.
pub open spec fn count_text(n: u64) -> Seq<char> {
    if n < 100_000_000 {
        text::decimal(n as nat) + " 条"@
    } else {
        let tenths = (n + 5_000_000) / 10_000_000;
        text::decimal((tenths / 10) as nat) + "."@ + text::decimal((tenths % 10) as nat)
            + " 亿条"@
    }
}

fn entries_text(n: u64) -> (r: String)
    ensures
        r@ == count_text(n),
{
    if n < 100_000_000 {
        let mut s = text::decimal_text(n);
        s.push_str(" 条");
        s
    } else {
        let wide: u128 = n as u128 + 5_000_000;
        let tenths: u64 = (wide / 10_000_000) as u64;
        let mut s = text::decimal_text(tenths / 10);
        s.push_str(".");
        s.push_str(&text::decimal_text(tenths % 10));
        s.push_str(" 亿条");
        s
    }
}

/// The status line of a load: its stage, the seconds from the first on, the entries once known.
pub open spec fn progress_line(snap: LoadSnapshotView, secs: nat) -> Seq<char> {
    let head = snap.label + "（"@ + text::decimal(snap.phases_done as nat) + "/"@ + text::decimal(
        snap.phases_total as nat,
    ) + " 阶段"@;
    let timed = if secs >= 1 {
        head + "，已 "@ + text::decimal(secs) + "s"@
    } else {
        head
    };
    let counted = if snap.entry_count > 0 {
        timed + "，共 "@ + count_text(snap.entry_count)
    } else {
        timed
    };
    counted + "）"@
}

pub fn progress_line_of(snap: &LoadSnapshot, now: u128) -> (r: String)
    ensures
        r@ == progress_line(
            snap@,
            (if seconds_since(snap.started, now) > u64::MAX {
                u64::MAX as int
            } else {
                seconds_since(snap.started, now)
            }) as nat,
        ),
{
    let secs: u64 = elapsed_secs(snap, now);
    let mut s = text::copied(&snap.label);
    s.push_str("（");
    s.push_str(&text::decimal_text(snap.phases_done as u64));
    s.push_str("/");
    s.push_str(&text::decimal_text(snap.phases_total as u64));
    s.push_str(" 阶段");
    if secs >= 1 {
        s.push_str("，已 ");
        s.push_str(&text::decimal_text(secs));
        s.push_str("s");
    }
    if snap.entry_count > 0 {
        s.push_str("，共 ");
        s.push_str(&entries_text(snap.entry_count));
    }
    s.push_str("）");
    s
}

// ---- laws ---------------------------------------------------------------------------------

/// A load that has ended shows nothing, at any time, until the next one begins; a new load shows
/// its first stage and no entries.
pub proof fn law_only_running_loads_show(s: LoadState, end: u128, begin: u128, now: u128)
    requires
        s.compacting is None,
    ensures
        shown(LoadState { phase: None, finished: Some(end), ..s }, now) is None,
        ({
            let again = LoadState {
                phase: Some(LoadPhase::Open),
                started: Some(begin),
                finished: None,
                entry_count: 0,
                ..s
            };
            shown(again, now) == Some(
                LoadSnapshotView {
                    label: "打开索引文件"@,
                    started: begin,
                    phases_done: 1,
                    phases_total: LOAD_PHASES,
                    entry_count: 0,
                },
            )
        }),
{
}

/// The number of a stage never exceeds the number of stages, and later stages have later numbers.
pub proof fn law_stage_numbers(s: LoadState, now: u128)
    ensures
        shown(s, now) matches Some(v) ==> 1 <= v.phases_done <= v.phases_total,
{
}

/// While deleted entries are removed the status shows that stage, also after loading has ended;
/// afterwards it shows what it showed before.
pub proof fn law_compaction_shows(s: LoadState, tombstones: u64, now: u128)
    requires
        s.compacting is None,
    ensures
        shown(LoadState { compacting: Some(tombstones), ..s }, now) matches Some(v)
            && v.phases_done == 9 && v.phases_total == 9,
        shown(
            LoadState { compacting: None, ..(LoadState { compacting: Some(tombstones), ..s }) },
            now,
        ) == shown(s, now),
{
}

/// The stages come in this order, and no two have the same number.
pub proof fn law_order_of_the_stages(p: LoadPhase)
    ensures
        ordinal(p) == 1 <==> p == LoadPhase::Open,
        ordinal(p) == 2 <==> p == LoadPhase::Header,
        ordinal(p) == 3 <==> p == LoadPhase::Entries,
        ordinal(p) == 4 <==> p == LoadPhase::Dirs,
        ordinal(p) == 5 <==> p == LoadPhase::Frns,
        ordinal(p) == 6 <==> p == LoadPhase::Indexes,
        ordinal(p) == 7 <==> p == LoadPhase::Filters,
        ordinal(p) == 8 <==> p == LoadPhase::CjkBitmap,
{
}

/// A running load shows its stage, when it began and how many entries it has; eight stages in all.
pub proof fn law_running_load_is_shown(s: LoadState, p: LoadPhase, began: u128, now: u128)
    requires
        s.compacting is None,
        s.phase == Some(p),
        s.started == Some(began),
        s.finished is None,
    ensures
        shown(s, now) matches Some(v) && v.label == phase_label(p) && v.started == began
            && v.phases_done == ordinal(p) && v.phases_total == 8 && v.entry_count == s.entry_count,
{
}

/// A removal of deleted entries shows how many there are.
pub proof fn law_running_compaction_is_shown(s: LoadState, n: u64, now: u128)
    requires
        s.compacting == Some(n),
    ensures
        shown(s, now) matches Some(v) && v.entry_count == n && (s.started matches Some(t)
            ==> v.started == t),
{
}

/// The seconds are whole ones: a second counts once it is over.
pub proof fn law_whole_seconds(started: u128, now: u128)
    ensures
        now >= started ==> seconds_since(started, now) * 1_000_000_000 <= now - started < (
        seconds_since(started, now) + 1) * 1_000_000_000,
        now < started ==> seconds_since(started, now) == 0,
{
}

/// A count is told to the last entry below a hundred million, and from there on in hundred millions
/// to the nearest tenth.
pub proof fn law_told_count(n: u64)
    requires
        n + 5_000_000 <= u64::MAX,
    ensures
        n < 100_000_000 ==> count_text(n) == text::decimal(n as nat) + " 条"@,
        n >= 100_000_000 ==> exists|whole: nat, tenth: nat|
            {
                &&& tenth < 10
                &&& -5_000_000 <= n - (whole * 10 + tenth) * 10_000_000 <= 5_000_000
                &&& count_text(n) == #[trigger] text::decimal(whole) + "."@ + #[trigger] text::decimal(
                    tenth,
                ) + " 亿条"@
            },
{
    if n >= 100_000_000 {
        let tenths = (n + 5_000_000) / 10_000_000;
        let whole = (tenths / 10) as nat;
        let tenth = (tenths % 10) as nat;
        assert(count_text(n) == text::decimal(whole) + "."@ + text::decimal(tenth) + " 亿条"@);
    }
}

/// The line of a load tells its stage, how many of all stages are done, the seconds once there is
/// one, and the entries once there are any.
pub proof fn law_line_of_a_load(v: LoadSnapshotView, secs: nat)
    ensures
        ({
            let head = v.label + "（"@ + text::decimal(v.phases_done as nat) + "/"@ + text::decimal(
                v.phases_total as nat,
            ) + " 阶段"@;
            let time = "，已 "@ + text::decimal(secs) + "s"@;
            let count = "，共 "@ + count_text(v.entry_count);
            let line = progress_line(v, secs);
            &&& secs == 0 && v.entry_count == 0 ==> line =~= head + "）"@
            &&& secs > 0 && v.entry_count == 0 ==> line =~= head + time + "）"@
            &&& secs == 0 && v.entry_count > 0 ==> line =~= head + count + "）"@
            &&& secs > 0 && v.entry_count > 0 ==> line =~= head + time + count + "）"@
        }),
{
}

} // verus!
