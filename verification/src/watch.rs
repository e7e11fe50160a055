//! Keeping an index up to date from the change journal of one volume: what is done with each
//! message of the watcher, when changes are applied and saved, and how the watcher is brought
//! back after it stopped.
use vstd::prelude::*;
use std::collections::HashSet;
use crate::model::{ChangeEvent, ChangeEventView};
use crate::text;
use crate::usn::{UsnResume, UsnWatchMsg, UsnWatchMsgView};

verus! {

broadcast use vstd::std_specs::hash::group_hash_axioms;

/// A batch of changes is applied when it has this many events.
pub const USN_BATCH_MAX_EVENTS: usize = 4096;

/// A batch of changes is applied when it is this old, in nanoseconds.
pub const USN_BATCH_FLUSH_NANOS: u128 = 50_000_000;

/// How many changes are applied under one lock; a search waits for no more than these.
pub const APPLY_BATCH: usize = 512;

/// How often a volume is rebuilt in a row after a gap in the journal.
pub const MAX_GAP_REBUILDS: u32 = 3;

/// The longest pause before the watcher is started again, in seconds.
pub const MAX_BACKOFF_SECS: u64 = 60;

// ---- the volumes of an index --------------------------------------------------------------

/// What the index knows of one volume.
#[derive(Debug, Clone, Copy, PartialEq, Eq, Structural)]
pub struct VolumeState {
    pub volume_letter: u8,
    pub first_entry_idx: u32,
    pub usn_journal_id: u64,
    pub last_usn: u64,
}

/// The letter of a volume, as a capital where it is an ASCII letter.
pub open spec fn letter_of(v: VolumeState) -> char {
    text::upper(v.volume_letter as char)
}

fn state_letter(v: &VolumeState) -> (r: char)
    ensures
        r == letter_of(*v),
{
    text::upper_char(v.volume_letter as char)
}

/// The place of the first volume with the letter `c`.
pub open spec fn place_of(vols: Seq<VolumeState>, c: char) -> Option<int>
    decreases vols.len(),
{
    if vols.len() == 0 {
        None
    } else {
        match place_of(vols.drop_last(), c) {
            Some(i) => Some(i),
            None => if letter_of(vols.last()) == c {
                Some(vols.len() - 1)
            } else {
                None
            },
        }
    }
}

pub proof fn lemma_place(vols: Seq<VolumeState>, c: char)
    ensures
        match place_of(vols, c) {
            Some(i) => {
                &&& 0 <= i < vols.len()
                &&& letter_of(vols[i]) == c
                &&& forall|k: int| 0 <= k < i ==> letter_of(#[trigger] vols[k]) != c
            },
            None => forall|k: int| 0 <= k < vols.len() ==> letter_of(#[trigger] vols[k]) != c,
        },
    decreases vols.len(),
{
    if vols.len() > 0 {
        let init = vols.drop_last();
        lemma_place(init, c);
        assert forall|k: int| 0 <= k < init.len() implies #[trigger] vols[k] == init[k] by {}
        if place_of(init, c) is None {
            assert forall|k: int| 0 <= k < init.len() implies letter_of(#[trigger] vols[k]) != c by {
                assert(letter_of(init[k]) != c);
            }
        }
    }
}

fn find_volume(vols: &Vec<VolumeState>, c: char) -> (r: Option<usize>)
    ensures
        match r {
            Some(i) => place_of(vols@, c) == Some(i as int) && i < vols@.len(),
            None => place_of(vols@, c) is None,
        },
{
    let mut i: usize = 0;
    while i < vols.len()
        invariant
            i <= vols.len(),
            place_of(vols@.take(i as int), c) is None,
        decreases vols.len() - i,
    {
        proof {
            assert(vols@.take(i + 1).drop_last() =~= vols@.take(i as int));
            assert(vols@.take(i + 1).last() == vols@[i as int]);
        }
        if state_letter(&vols[i]) == c {
            proof {
                lemma_place(vols@, c);
                lemma_place(vols@.take(i as int), c);
                assert(vols@[i as int] == vols@.take(i + 1)[i as int]);
                match place_of(vols@, c) {
                    Some(k) => {
                        if k < i {
                            assert(vols@.take(i as int)[k] == vols@[k]);
                        }
                    },
                    None => {
                        assert(letter_of(vols@[i as int]) != c);
                    },
                }
            }
            return Some(i);
        }
        i += 1;
    }
    assert(vols@.take(vols@.len() as int) =~= vols@);
    None
}

/// The position from which a volume is read again: that of the volume with the letter, else that
/// of the first volume of the index.
pub open spec fn resume_of(vols: Seq<VolumeState>, c: char) -> Option<(u64, u64)> {
    match place_of(vols, c) {
        Some(i) => Some((vols[i].usn_journal_id, vols[i].last_usn)),
        None => if vols.len() > 0 {
            Some((vols[0].usn_journal_id, vols[0].last_usn))
        } else {
            None
        },
    }
}

pub fn resume_point(vols: &Vec<VolumeState>, letter: char) -> (r: Option<UsnResume>)
    ensures
        (match r {
            Some(p) => Some((p.journal_id, p.start_usn)),
            None => None,
        }) == resume_of(vols@, letter),
{
    match find_volume(vols, letter) {
        Some(i) => Some(
            UsnResume { journal_id: vols[i].usn_journal_id, start_usn: vols[i].last_usn },
        ),
        None => if vols.len() > 0 {
            Some(UsnResume { journal_id: vols[0].usn_journal_id, start_usn: vols[0].last_usn })
        } else {
            None
        },
    }
}

/// How watching a volume begins.
#[derive(Debug)]
pub enum WatchStart {
    /// The volume has no journal: it is not watched, and the text says so.
    NoJournal(String),
    /// The index has no volumes: the first text goes into the status, the second is the error.
    NoVolumes(String, String),
    /// Watch from this position.
    From(UsnResume),
}

pub enum WatchStartView {
    NoJournal(Seq<char>),
    NoVolumes(Seq<char>, Seq<char>),
    From(u64, u64),
}

impl View for WatchStart {
    type V = WatchStartView;

    open spec fn view(&self) -> WatchStartView {
        match *self {
            WatchStart::NoJournal(s) => WatchStartView::NoJournal(s@),
            WatchStart::NoVolumes(s, e) => WatchStartView::NoVolumes(s@, e@),
            WatchStart::From(p) => WatchStartView::From(p.journal_id, p.start_usn),
        }
    }
}

pub open spec fn start_of(vols: Seq<VolumeState>, c: char) -> WatchStartView {
    match place_of(vols, c) {
        Some(i) if vols[i].usn_journal_id == 0 => WatchStartView::NoJournal(
            "该卷无 USN journal（如 ReFS），不做增量监听；改动需手动重建"@,
        ),
        _ => match resume_of(vols, c) {
            Some(p) => WatchStartView::From(p.0, p.1),
            None => WatchStartView::NoVolumes(
                "索引中无卷元数据，等待…"@,
                "索引中无卷元数据"@,
            ),
        },
    }
}

/// Decides whether and from where the volume `letter` (a capital) is watched.
pub fn usn_watch_loop(vols: &Vec<VolumeState>, letter: char) -> (r: WatchStart)
    ensures
        r@ == start_of(vols@, letter),
{
    match find_volume(vols, letter) {
        Some(i) => {
            if vols[i].usn_journal_id == 0 {
                return WatchStart::NoJournal(
                    text::copied(
                        "该卷无 USN journal（如 ReFS），不做增量监听；改动需手动重建",
                    ),
                );
            }
        },
        None => {},
    }
    match resume_point(vols, letter) {
        Some(p) => WatchStart::From(p),
        None => WatchStart::NoVolumes(
            text::copied("索引中无卷元数据，等待…"),
            text::copied("索引中无卷元数据"),
        ),
    }
}

/// The volumes after the journal of the volume `c` was read up to `next_usn`.
pub open spec fn with_cursor(
    vols: Seq<VolumeState>,
    c: char,
    journal_id: u64,
    next_usn: u64,
) -> Seq<VolumeState> {
    match place_of(vols, c) {
        Some(i) => vols.update(
            i,
            VolumeState { usn_journal_id: journal_id, last_usn: next_usn, ..vols[i] },
        ),
        None => vols,
    }
}

/// Moves the position of the volume `letter` (a capital) in its journal.
pub fn set_cursor(vols: &mut Vec<VolumeState>, letter: char, journal_id: u64, next_usn: u64)
    ensures
        final(vols)@ == with_cursor(old(vols)@, letter, journal_id, next_usn),
{
    match find_volume(vols, letter) {
        Some(i) => {
            let v = vols[i];
            vols.set(i, VolumeState { usn_journal_id: journal_id, last_usn: next_usn, ..v });
        },
        None => {},
    }
}

/// Watching goes on from the position that was set last.
pub proof fn law_cursor_is_resumed(vols: Seq<VolumeState>, c: char, journal_id: u64, next_usn: u64)
    requires
        place_of(vols, c) is Some,
    ensures
        resume_of(with_cursor(vols, c, journal_id, next_usn), c) == Some((journal_id, next_usn)),
{
    let after = with_cursor(vols, c, journal_id, next_usn);
    lemma_place(vols, c);
    lemma_place(after, c);
    let i = place_of(vols, c)->0;
    assert(letter_of(after[i]) == c);
    match place_of(after, c) {
        Some(k) => {
            if k < i {
                assert(after[k] == vols[k]);
            }
        },
        None => {},
    }
}

// ---- volumes that stand still during a rebuild --------------------------------------------

/// The volumes that are being rebuilt: their changes are dropped, and read again afterwards.
#[derive(Debug)]
pub struct FrozenVolumes {
    letters: HashSet<u32>,
}

impl View for FrozenVolumes {
    type V = Set<u32>;

    closed spec fn view(&self) -> Set<u32> {
        self.letters@
    }
}

impl FrozenVolumes {
    pub fn new() -> (r: FrozenVolumes)
        ensures
            r@ == Set::<u32>::empty(),
    {
        FrozenVolumes { letters: HashSet::new() }
    }

    /// Freezes a volume or lets it go again; the letter counts in either case.
    pub fn freeze_volume(&mut self, letter: char, on: bool)
        ensures
            final(self)@ == (if on {
                old(self)@.insert(text::upper(letter) as u32)
            } else {
                old(self)@.remove(text::upper(letter) as u32)
            }),
    {
        let key: u32 = text::upper_char(letter) as u32;
        if on {
            self.letters.insert(key);
        } else {
            self.letters.remove(&key);
        }
    }

    pub fn is_volume_frozen(&self, letter: char) -> (r: bool)
        ensures
            r == self@.contains(text::upper(letter) as u32),
    {
        let key: u32 = text::upper_char(letter) as u32;
        self.letters.contains(&key)
    }
}

/// The position that a rebuild starts from: the journal is read again from there afterwards.
pub open spec fn frozen_of(vols: Seq<VolumeState>, c: char) -> u64 {
    match place_of(vols, c) {
        Some(i) => vols[i].last_usn,
        None => 0,
    }
}

pub fn frozen_cursor(vols: &Vec<VolumeState>, letter: char) -> (r: u64)
    ensures
        r == frozen_of(vols@, letter),
{
    match find_volume(vols, letter) {
        Some(i) => vols[i].last_usn,
        None => 0,
    }
}

/// The volumes with the position of `c` set back to `frozen`.
pub open spec fn rewound(vols: Seq<VolumeState>, c: char, frozen: u64) -> Seq<VolumeState> {
    match place_of(vols, c) {
        Some(i) => vols.update(i, VolumeState { last_usn: frozen, ..vols[i] }),
        None => vols,
    }
}

pub fn rewind(vols: &mut Vec<VolumeState>, letter: char, frozen: u64)
    ensures
        final(vols)@ == rewound(old(vols)@, letter, frozen),
{
    match find_volume(vols, letter) {
        Some(i) => {
            let v = vols[i];
            vols.set(i, VolumeState { last_usn: frozen, ..v });
        },
        None => {},
    }
}

// ---- the journal overtaking the reader ----------------------------------------------------

pub open spec fn wrap_text(slack: nat, span: nat) -> Seq<char> {
    "USN journal 未读记录即将被覆写（缓冲 "@ + text::decimal(slack) + "/"@ + text::decimal(span)
        + "），停机过久会触发全量重建"@
}

/// The warning for a reader at `cursor` of a journal that holds the records from `first` to
/// `next`: there is something unread, and less than a twentieth of the journal lies between the
/// oldest record and the reader.
pub open spec fn wrap_warning(first: i64, next: i64, cursor: i64) -> Option<Seq<char>> {
    let span = next - first;
    let behind = if cursor - first > i64::MAX {
        i64::MAX as int
    } else {
        cursor - first
    };
    let slack = if behind < 0 {
        0
    } else {
        behind
    };
    if next <= first || next <= cursor || slack >= span / 20 {
        None
    } else {
        Some(wrap_text(slack as nat, span as nat))
    }
}

/// Warns where unread records are about to be overwritten; `journal` is missing where the state
/// of the journal could not be read.
pub fn probe_journal_wrap_warning(journal: Option<(i64, i64)>, cursor_usn: u64) -> (r: Option<
    String,
>)
    ensures
        (match r {
            Some(s) => Some(s@),
            None => None,
        }) == (match journal {
            Some(j) => wrap_warning(j.0, j.1, cursor_usn as i64),
            None => None,
        }),
{
    let (first, next) = match journal {
        Some(j) => j,
        None => {
            return None;
        },
    };
    let cursor: i64 = cursor_usn as i64;
    if next <= first || next <= cursor {
        return None;
    }
    let span: i128 = next as i128 - first as i128;
    let mut behind: i128 = cursor as i128 - first as i128;
    if behind > i64::MAX as i128 {
        behind = i64::MAX as i128;
    }
    if behind < 0 {
        behind = 0;
    }
    if behind >= span / 20 {
        return None;
    }
    let mut s = text::copied("USN journal 未读记录即将被覆写（缓冲 ");
    s.push_str(&text::decimal_text(behind as u64));
    s.push_str("/");
    s.push_str(&text::decimal_text(span as u64));
    s.push_str("），停机过久会触发全量重建");
    Some(s)
}

/// A reader that has caught up is never warned, however full the journal is.
pub proof fn law_no_warning_when_caught_up(first: i64, next: i64, cursor: i64)
    requires
        next <= cursor,
    ensures
        wrap_warning(first, next, cursor) is None,
{
}

// ---- the watching loop --------------------------------------------------------------------

pub open spec fn events(v: Seq<ChangeEvent>) -> Seq<ChangeEventView> {
    v.map_values(|e: ChangeEvent| e@)
}

/// The state of the loop that watches one volume. All times are nanoseconds of a clock that does
/// not run backwards.
#[derive(Debug)]
pub struct WatchState {
    /// The letter of the volume, a capital.
    pub letter: char,
    /// Changes that are not applied yet.
    pub pending: Vec<ChangeEvent>,
    /// When the first of them came.
    pub batch_started: u128,
    pub last_save: u128,
    pub save_every: u128,
    pub backoff_secs: u64,
    pub gap_rebuilds: u32,
}

pub struct WatchStateView {
    pub letter: char,
    pub pending: Seq<ChangeEventView>,
    pub batch_started: u128,
    pub last_save: u128,
    pub save_every: u128,
    pub backoff_secs: u64,
    pub gap_rebuilds: u32,
}

impl View for WatchState {
    type V = WatchStateView;

    open spec fn view(&self) -> WatchStateView {
        WatchStateView {
            letter: self.letter,
            pending: events(self.pending@),
            batch_started: self.batch_started,
            last_save: self.last_save,
            save_every: self.save_every,
            backoff_secs: self.backoff_secs,
            gap_rebuilds: self.gap_rebuilds,
        }
    }
}

/// What happens to the problem that the status shows for the volume.
#[derive(Debug)]
pub enum ErrorUpdate {
    Keep,
    Clear,
    Show(String),
}

pub enum ErrorUpdateView {
    Keep,
    Clear,
    Show(Seq<char>),
}

impl View for ErrorUpdate {
    type V = ErrorUpdateView;

    open spec fn view(&self) -> ErrorUpdateView {
        match *self {
            ErrorUpdate::Keep => ErrorUpdateView::Keep,
            ErrorUpdate::Clear => ErrorUpdateView::Clear,
            ErrorUpdate::Show(s) => ErrorUpdateView::Show(s@),
        }
    }
}

/// What one turn of the loop asks for, in this order: changes to apply, a file whose metadata is
/// to be read again, a new position in the journal, a new problem, saving the index.
#[derive(Debug)]
pub struct WatchStep {
    pub apply: Vec<ChangeEvent>,
    pub stat: Option<(u64, Option<[u8; 16]>)>,
    pub cursor: Option<(u64, u64)>,
    pub error: ErrorUpdate,
    pub save: bool,
}

pub struct WatchStepView {
    pub apply: Seq<ChangeEventView>,
    pub stat: Option<(u64, Option<Seq<u8>>)>,
    pub cursor: Option<(u64, u64)>,
    pub error: ErrorUpdateView,
    pub save: bool,
}

impl View for WatchStep {
    type V = WatchStepView;

    open spec fn view(&self) -> WatchStepView {
        WatchStepView {
            apply: events(self.apply@),
            stat: match self.stat {
                Some(p) => Some((p.0, crate::model::id_bytes(p.1))),
                None => None,
            },
            cursor: self.cursor,
            error: self.error@,
            save: self.save,
        }
    }
}

/// A turn that asks for nothing.
pub open spec fn idle() -> WatchStepView {
    WatchStepView {
        apply: Seq::empty(),
        stat: None,
        cursor: None,
        error: ErrorUpdateView::Keep,
        save: false,
    }
}

pub open spec fn elapsed(since: u128, now: u128) -> int {
    if now > since {
        now - since
    } else {
        0
    }
}

/// The index is due for saving: its metadata is complete and the interval is over.
pub open spec fn save_due(s: WatchStateView, now: u128, ready: bool) -> bool {
    ready && elapsed(s.last_save, now) >= s.save_every
}

/// Pending changes are old enough to be applied.
pub open spec fn batch_due(s: WatchStateView, now: u128) -> bool {
    s.pending.len() > 0 && elapsed(s.batch_started, now) >= USN_BATCH_FLUSH_NANOS
}

/// One message of the watcher. `journal` is the oldest and the next position of the journal where
/// they could be read; it matters for a checkpoint alone.
pub open spec fn message_step(
    s: WatchStateView,
    msg: UsnWatchMsgView,
    journal: Option<(i64, i64)>,
    now: u128,
    ready: bool,
) -> (WatchStateView, WatchStepView) {
    match msg {
        UsnWatchMsgView::Event(e) => {
            let started = if s.pending.len() == 0 {
                now
            } else {
                s.batch_started
            };
            let all = s.pending.push(e);
            if all.len() >= USN_BATCH_MAX_EVENTS {
                (
                    WatchStateView { pending: Seq::empty(), batch_started: started, ..s },
                    WatchStepView { apply: all, ..idle() },
                )
            } else {
                (WatchStateView { pending: all, batch_started: started, ..s }, idle())
            }
        },
        UsnWatchMsgView::StatRefresh { file_id, file_id_128 } => (
            s,
            WatchStepView { stat: Some((file_id, file_id_128)), ..idle() },
        ),
        UsnWatchMsgView::Checkpoint { journal_id, next_usn } => (
            WatchStateView { pending: Seq::empty(), backoff_secs: 1, gap_rebuilds: 0, ..s },
            WatchStepView {
                apply: s.pending,
                stat: None,
                cursor: Some((journal_id, next_usn)),
                error: match journal {
                    Some(j) => match wrap_warning(j.0, j.1, next_usn as i64) {
                        Some(w) => ErrorUpdateView::Show(w),
                        None => ErrorUpdateView::Clear,
                    },
                    None => ErrorUpdateView::Clear,
                },
                save: save_due(s, now, ready),
            },
        ),
    }
}

/// No message came in time.
pub open spec fn timeout_step(s: WatchStateView, now: u128, ready: bool) -> (
    WatchStateView,
    WatchStepView,
) {
    if batch_due(s, now) {
        (
            WatchStateView { pending: Seq::empty(), ..s },
            WatchStepView { apply: s.pending, save: save_due(s, now, ready), ..idle() },
        )
    } else {
        (s, WatchStepView { save: save_due(s, now, ready), ..idle() })
    }
}

/// The end of a turn: a batch that has grown old is applied.
pub open spec fn turn_end(s: WatchStateView, now: u128) -> (WatchStateView, Seq<ChangeEventView>) {
    if batch_due(s, now) {
        (WatchStateView { pending: Seq::empty(), ..s }, s.pending)
    } else {
        (s, Seq::empty())
    }
}

/// How the watcher ended.
#[derive(Debug)]
pub enum WorkerExit {
    /// It returned without an error.
    Returned,
    /// It returned an error; `gap` if the journal no longer covers the position.
    Failed { gap: bool, reason: String },
    Panicked,
}

pub enum WorkerExitView {
    Returned,
    Failed { gap: bool, reason: Seq<char> },
    Panicked,
}

impl View for WorkerExit {
    type V = WorkerExitView;

    open spec fn view(&self) -> WorkerExitView {
        match *self {
            WorkerExit::Returned => WorkerExitView::Returned,
            WorkerExit::Failed { gap, reason } => WorkerExitView::Failed { gap, reason: reason@ },
            WorkerExit::Panicked => WorkerExitView::Panicked,
        }
    }
}

/// What follows the end of a watcher.
#[derive(Debug)]
pub enum Recovery {
    /// Show the text, rebuild the volume, report with `rebuilt`, then restart.
    Rebuild { show: String },
    /// Show the text, then restart.
    Restart { show: String },
    /// Show the text and stop watching with the error.
    GiveUp { show: String, error: String },
}

pub enum RecoveryView {
    Rebuild { show: Seq<char> },
    Restart { show: Seq<char> },
    GiveUp { show: Seq<char>, error: Seq<char> },
}

impl View for Recovery {
    type V = RecoveryView;

    open spec fn view(&self) -> RecoveryView {
        match *self {
            Recovery::Rebuild { show } => RecoveryView::Rebuild { show: show@ },
            Recovery::Restart { show } => RecoveryView::Restart { show: show@ },
            Recovery::GiveUp { show, error } => RecoveryView::GiveUp { show: show@, error: error@ },
        }
    }
}

pub open spec fn exit_reason(exit: WorkerExitView) -> Seq<char> {
    match exit {
        WorkerExitView::Returned => "watch 线程异常返回（理论不可达）"@,
        WorkerExitView::Failed { gap, reason } => reason,
        WorkerExitView::Panicked => "watch 线程 panic"@,
    }
}

/// The reason says that opening the volume was not allowed.
pub open spec fn denied(reason: Seq<char>) -> bool {
    text::holds(reason, "拒绝访问"@) || text::holds(reason, "0x80070005"@) || text::holds(
        reason,
        "Access is denied"@,
    )
}

pub open spec fn interrupted_text(reason: Seq<char>) -> Seq<char> {
    if denied(reason) {
        "打开卷被拒绝（权限不足）。请确认系统服务 FindX2Search 正在运行，而不是普通权限的 findx2-service。"@
            + reason
    } else {
        "监听中断，重试中: "@ + reason
    }
}

/// The watcher has ended: all pending changes are applied, and then the volume is rebuilt, the
/// watcher restarted, or watching given up.
pub open spec fn exit_step(s: WatchStateView, exit: WorkerExitView) -> (
    WatchStateView,
    RecoveryView,
) {
    let flushed = WatchStateView { pending: Seq::empty(), ..s };
    match exit {
        WorkerExitView::Failed { gap: true, reason } => if s.gap_rebuilds < MAX_GAP_REBUILDS {
            let n = (s.gap_rebuilds + 1) as u32;
            (
                WatchStateView { gap_rebuilds: n, ..flushed },
                RecoveryView::Rebuild {
                    show: "USN 日志断档，全卷重建中（"@ + text::decimal(n as nat) + "/3）…"@,
                },
            )
        } else {
            (
                flushed,
                RecoveryView::GiveUp {
                    show: "USN 断档且自动重建已达上限，请手动重建索引"@,
                    error: "卷 "@ + seq![s.letter] + " USN 断档重建达上限"@,
                },
            )
        },
        _ => (flushed, RecoveryView::Restart { show: interrupted_text(exit_reason(exit)) }),
    }
}

fn take_all(v: &mut Vec<ChangeEvent>) -> (r: Vec<ChangeEvent>)
    ensures
        r@ == old(v)@,
        final(v)@ == Seq::<ChangeEvent>::empty(),
{
    let mut out: Vec<ChangeEvent> = Vec::new();
    std::mem::swap(&mut out, v);
    out
}

fn idle_step() -> (r: WatchStep)
    ensures
        r@ == idle(),
{
    let step = WatchStep {
        apply: Vec::new(),
        stat: None,
        cursor: None,
        error: ErrorUpdate::Keep,
        save: false,
    };
    assert(events(step.apply@) =~= Seq::empty());
    step
}

fn time_since(since: u128, now: u128) -> (r: u128)
    ensures
        r == elapsed(since, now),
{
    if now > since {
        now - since
    } else {
        0
    }
}

impl WatchState {
    /// A loop that starts now and saves the index every so many seconds.
    pub fn new(letter: char, save_interval_secs: u64, now: u128) -> (r: WatchState)
        ensures
            r@ == (WatchStateView {
                letter: text::upper(letter),
                pending: Seq::empty(),
                batch_started: now,
                last_save: now,
                save_every: (save_interval_secs * 1_000_000_000) as u128,
                backoff_secs: 1,
                gap_rebuilds: 0,
            }),
    {
        let s = WatchState {
            letter: text::upper_char(letter),
            pending: Vec::new(),
            batch_started: now,
            last_save: now,
            save_every: (save_interval_secs as u128) * 1_000_000_000,
            backoff_secs: 1,
            gap_rebuilds: 0,
        };
        assert(events(s.pending@) =~= Seq::empty());
        s
    }

    fn saving_due(&self, now: u128, ready: bool) -> (r: bool)
        ensures
            r == save_due(self@, now, ready),
    {
        ready && time_since(self.last_save, now) >= self.save_every
    }

    fn flush_due(&self, now: u128) -> (r: bool)
        ensures
            r == batch_due(self@, now),
    {
        assert(self@.pending.len() == self.pending@.len());
        self.pending.len() > 0 && time_since(self.batch_started, now) >= USN_BATCH_FLUSH_NANOS
    }

    /// Handles one message of the watcher.
    pub fn on_message(
        &mut self,
        msg: UsnWatchMsg,
        journal: Option<(i64, i64)>,
        now: u128,
        ready: bool,
    ) -> (r: WatchStep)
        ensures
            (final(self)@, r@) == message_step(old(self)@, msg@, journal, now, ready),
    {
        let ghost before = self@;
        let mut step = idle_step();
        match msg {
            UsnWatchMsg::Event(e) => {
                if self.pending.len() == 0 {
                    self.batch_started = now;
                }
                self.pending.push(e);
                proof {
                    assert(events(self.pending@) =~= before.pending.push(e@));
                }
                if self.pending.len() >= USN_BATCH_MAX_EVENTS {
                    step.apply = take_all(&mut self.pending);
                    proof {
                        assert(events(self.pending@) =~= Seq::empty());
                    }
                }
            },
            UsnWatchMsg::StatRefresh { file_id, file_id_128 } => {
                step.stat = Some((file_id, file_id_128));
            },
            UsnWatchMsg::Checkpoint { journal_id, next_usn } => {
                step.save = self.saving_due(now, ready);
                step.apply = take_all(&mut self.pending);
                proof {
                    assert(events(self.pending@) =~= Seq::empty());
                }
                step.cursor = Some((journal_id, next_usn));
                self.backoff_secs = 1;
                self.gap_rebuilds = 0;
                step.error = match probe_journal_wrap_warning(journal, next_usn) {
                    Some(w) => ErrorUpdate::Show(w),
                    None => ErrorUpdate::Clear,
                };
            },
        }
        step
    }

    /// No message came while the loop waited.
    pub fn on_timeout(&mut self, now: u128, ready: bool) -> (r: WatchStep)
        ensures
            (final(self)@, r@) == timeout_step(old(self)@, now, ready),
    {
        let mut step = idle_step();
        step.save = self.saving_due(now, ready);
        if self.flush_due(now) {
            step.apply = take_all(&mut self.pending);
            proof {
                assert(events(self.pending@) =~= Seq::empty());
            }
        }
        step
    }

    /// The index was saved.
    pub fn on_saved(&mut self, now: u128)
        ensures
            final(self)@ == (WatchStateView { last_save: now, ..old(self)@ }),
    {
        self.last_save = now;
    }

    /// The end of a turn in which the watcher was alive: the changes to apply.
    pub fn on_turn_end(&mut self, now: u128) -> (r: Vec<ChangeEvent>)
        ensures
            (final(self)@, events(r@)) == turn_end(old(self)@, now),
    {
        if self.flush_due(now) {
            let out = take_all(&mut self.pending);
            proof {
                assert(events(self.pending@) =~= Seq::empty());
            }
            out
        } else {
            let out: Vec<ChangeEvent> = Vec::new();
            assert(events(out@) =~= Seq::empty());
            out
        }
    }

    /// The volume is being rebuilt: pending changes are dropped, the position stays.
    pub fn on_frozen(&mut self)
        ensures
            final(self)@ == (WatchStateView { pending: Seq::empty(), ..old(self)@ }),
    {
        let _ = take_all(&mut self.pending);
        assert(events(self.pending@) =~= Seq::empty());
    }

    /// The watcher has ended: the changes to apply, and what follows.
    pub fn on_exit(&mut self, exit: &WorkerExit) -> (r: (Vec<ChangeEvent>, Recovery))
        ensures
            events(r.0@) == old(self)@.pending,
            (final(self)@, r.1@) == exit_step(old(self)@, exit@),
    {
        let out = take_all(&mut self.pending);
        proof {
            assert(events(self.pending@) =~= Seq::empty());
        }
        let reason = match exit {
            WorkerExit::Returned => text::copied("watch 线程异常返回（理论不可达）"),
            WorkerExit::Failed { gap, reason } => {
                if *gap {
                    if self.gap_rebuilds < MAX_GAP_REBUILDS {
                        self.gap_rebuilds = self.gap_rebuilds + 1;
                        let mut show = text::copied("USN 日志断档，全卷重建中（");
                        show.push_str(&text::decimal_text(self.gap_rebuilds as u64));
                        show.push_str("/3）…");
                        return (out, Recovery::Rebuild { show });
                    }
                    let mut error = text::copied("卷 ");
                    error.push(self.letter);
                    assert(error@ =~= "卷 "@ + seq![self.letter]);
                    error.push_str(" USN 断档重建达上限");
                    return (
                        out,
                        Recovery::GiveUp {
                            show: text::copied(
                                "USN 断档且自动重建已达上限，请手动重建索引",
                            ),
                            error,
                        },
                    );
                }
                text::copied(reason)
            },
            WorkerExit::Panicked => text::copied("watch 线程 panic"),
        };
        let refused = text::contains(&reason, "拒绝访问") || text::contains(&reason, "0x80070005")
            || text::contains(&reason, "Access is denied");
        let mut show = if refused {
            text::copied(
                "打开卷被拒绝（权限不足）。请确认系统服务 FindX2Search 正在运行，而不是普通权限的 findx2-service。",
            )
        } else {
            text::copied("监听中断，重试中: ")
        };
        show.push_str(&reason);
        (out, Recovery::Restart { show })
    }

    /// The rebuild has ended; `failed` is its error.
    pub fn on_rebuilt(&mut self, failed: &Option<String>) -> (r: ErrorUpdate)
        ensures
            match *failed {
                Some(e) => {
                    &&& final(self)@ == old(self)@
                    &&& r@ == ErrorUpdateView::Show("重建失败: "@ + e@ + "，退避重试…"@)
                },
                None => {
                    &&& final(self)@ == (WatchStateView { gap_rebuilds: 0, ..old(self)@ })
                    &&& r@ == ErrorUpdateView::Clear
                },
            },
    {
        match failed {
            Some(e) => {
                let mut s = text::copied("重建失败: ");
                s.push_str(e);
                s.push_str("，退避重试…");
                ErrorUpdate::Show(s)
            },
            None => {
                self.gap_rebuilds = 0;
                ErrorUpdate::Clear
            },
        }
    }

    /// The watcher is started again from `resume`: how many seconds to wait before its messages
    /// are read. Without a position watching ends with an error.
    pub fn on_restart(&mut self, resume: &Option<UsnResume>) -> (r: Result<u64, String>)
        ensures
            match r {
                Ok(secs) => {
                    &&& resume is Some
                    &&& secs == old(self)@.backoff_secs
                    &&& final(self)@ == (WatchStateView {
                        backoff_secs: next_backoff(old(self)@.backoff_secs),
                        ..old(self)@
                    })
                },
                Err(e) => {
                    &&& resume is None
                    &&& e@ == "卷 "@ + seq![old(self)@.letter]
                        + " 重启监听时索引中无卷元数据"@
                    &&& final(self)@ == old(self)@
                },
            },
    {
        match resume {
            Some(_) => {
                let secs: u64 = self.backoff_secs;
                self.backoff_secs = if secs > MAX_BACKOFF_SECS / 2 {
                    MAX_BACKOFF_SECS
                } else {
                    secs * 2
                };
                Ok(secs)
            },
            None => {
                let mut e = text::copied("卷 ");
                e.push(self.letter);
                assert(e@ =~= "卷 "@ + seq![self.letter]);
                e.push_str(" 重启监听时索引中无卷元数据");
                Err(e)
            },
        }
    }
}

/// The pause after the next failure: twice as long, at most a minute.
pub open spec fn next_backoff(secs: u64) -> u64 {
    if secs * 2 > MAX_BACKOFF_SECS {
        MAX_BACKOFF_SECS
    } else {
        (secs * 2) as u64
    }
}

// ---- laws of the loop ---------------------------------------------------------------------

/// No change is lost or applied twice, and their order is kept: what a message adds is what was
/// pending, then the new change, split between what is applied now and what stays pending.
pub proof fn law_no_change_is_lost(
    s: WatchStateView,
    msg: UsnWatchMsgView,
    journal: Option<(i64, i64)>,
    now: u128,
    ready: bool,
)
    ensures
        ({
            let (t, step) = message_step(s, msg, journal, now, ready);
            step.apply + t.pending == match msg {
                UsnWatchMsgView::Event(e) => s.pending.push(e),
                _ => s.pending,
            }
        }),
        ({
            let (t, step) = timeout_step(s, now, ready);
            step.apply + t.pending == s.pending
        }),
        ({
            let (t, applied) = turn_end(s, now);
            applied + t.pending == s.pending
        }),
{
    let (t, step) = message_step(s, msg, journal, now, ready);
    let want = match msg {
        UsnWatchMsgView::Event(e) => s.pending.push(e),
        _ => s.pending,
    };
    assert(step.apply + t.pending =~= want);
    let (t2, step2) = timeout_step(s, now, ready);
    assert(step2.apply + t2.pending =~= s.pending);
    let (t3, applied) = turn_end(s, now);
    assert(applied + t3.pending =~= s.pending);
}

/// The position moves only when every change that was received before it has been applied.
pub proof fn law_cursor_after_changes(
    s: WatchStateView,
    msg: UsnWatchMsgView,
    journal: Option<(i64, i64)>,
    now: u128,
    ready: bool,
)
    ensures
        ({
            let (t, step) = message_step(s, msg, journal, now, ready);
            step.cursor is Some ==> t.pending.len() == 0 && step.apply == s.pending
        }),
{
}

/// The changes among the messages.
pub open spec fn changes_in(msgs: Seq<UsnWatchMsgView>) -> Seq<ChangeEventView>
    decreases msgs.len(),
{
    if msgs.len() == 0 {
        Seq::empty()
    } else {
        match msgs.last() {
            UsnWatchMsgView::Event(e) => changes_in(msgs.drop_last()).push(e),
            _ => changes_in(msgs.drop_last()),
        }
    }
}

/// The state after a run of messages, received at the given times, each followed by the end of its
/// turn; and the changes that were applied on the way.
pub open spec fn after_messages(
    s: WatchStateView,
    msgs: Seq<UsnWatchMsgView>,
    times: Seq<u128>,
    journal: Option<(i64, i64)>,
    ready: bool,
) -> (WatchStateView, Seq<ChangeEventView>)
    decreases msgs.len(),
{
    if msgs.len() == 0 {
        (s, Seq::empty())
    } else {
        let (t, done) = after_messages(s, msgs.drop_last(), times, journal, ready);
        let now = times[msgs.len() - 1];
        let (u, step) = message_step(t, msgs.last(), journal, now, ready);
        let (w, late) = turn_end(u, now);
        (w, done + step.apply + late)
    }
}

proof fn lemma_after_messages(
    s: WatchStateView,
    msgs: Seq<UsnWatchMsgView>,
    times: Seq<u128>,
    journal: Option<(i64, i64)>,
    ready: bool,
)
    ensures
        ({
            let (t, done) = after_messages(s, msgs, times, journal, ready);
            &&& done + t.pending == s.pending + changes_in(msgs)
            &&& msgs.len() > 0 && msgs.last() is Checkpoint ==> t.pending.len() == 0
        }),
    decreases msgs.len(),
{
    if msgs.len() == 0 {
        assert(Seq::<ChangeEventView>::empty() + s.pending =~= s.pending + changes_in(msgs));
    } else {
        let init = msgs.drop_last();
        let now = times[msgs.len() - 1];
        lemma_after_messages(s, init, times, journal, ready);
        let (t, done) = after_messages(s, init, times, journal, ready);
        let (u, step) = message_step(t, msgs.last(), journal, now, ready);
        let (w, late) = turn_end(u, now);
        law_no_change_is_lost(t, msgs.last(), journal, now, ready);
        law_no_change_is_lost(u, msgs.last(), journal, now, ready);
        assert(late + w.pending == u.pending);
        let want = s.pending + changes_in(msgs);
        assert((done + step.apply + late) + w.pending =~= done + (step.apply + (late + w.pending)));
        match msgs.last() {
            UsnWatchMsgView::Event(e) => {
                assert(step.apply + u.pending == t.pending.push(e));
                assert(done + t.pending.push(e) =~= (done + t.pending).push(e));
                assert((s.pending + changes_in(init)).push(e) =~= want);
            },
            _ => {
                assert(step.apply + u.pending == t.pending);
            },
        }
    }
}

/// When the position of a read has been taken over, every change of that read has been applied, and
/// so has everything that was waiting: exactly those, in order.
pub proof fn law_read_is_applied_before_its_position(
    s: WatchStateView,
    journal_id: u64,
    cursor: i64,
    buf: Seq<u8>,
    times: Seq<u128>,
    journal: Option<(i64, i64)>,
    ready: bool,
)
    requires
        buf.len() >= 8,
    ensures
        ({
            let msgs = crate::usn::watch_step_of(journal_id, cursor, buf).1;
            let (t, done) = after_messages(s, msgs, times, journal, ready);
            &&& t.pending.len() == 0
            &&& done == s.pending + changes_in(msgs)
        }),
{
    let msgs = crate::usn::watch_step_of(journal_id, cursor, buf).1;
    let (t, done) = after_messages(s, msgs, times, journal, ready);
    lemma_after_messages(s, msgs, times, journal, ready);
    assert(done + t.pending =~= done);
}

/// The batch stays below its limit from one message to the next.
pub proof fn law_batch_is_bounded(
    s: WatchStateView,
    msg: UsnWatchMsgView,
    journal: Option<(i64, i64)>,
    now: u128,
    ready: bool,
)
    requires
        s.pending.len() < USN_BATCH_MAX_EVENTS,
    ensures
        message_step(s, msg, journal, now, ready).0.pending.len() < USN_BATCH_MAX_EVENTS,
{
}

/// At the end of a turn no batch is both filled and old.
pub proof fn law_old_batches_are_applied(s: WatchStateView, now: u128)
    ensures
        !batch_due(turn_end(s, now).0, now),
{
}

/// The index is never saved before its metadata is complete.
pub proof fn law_no_save_before_ready(
    s: WatchStateView,
    msg: UsnWatchMsgView,
    journal: Option<(i64, i64)>,
    now: u128,
)
    ensures
        !message_step(s, msg, journal, now, false).1.save,
        !timeout_step(s, now, false).1.save,
{
}

/// A volume is rebuilt at most three times in a row: every gap either counts up, or watching is
/// given up; any other end of the watcher leaves the count alone.
pub proof fn law_rebuilds_are_bounded(s: WatchStateView, exit: WorkerExitView)
    requires
        s.gap_rebuilds <= MAX_GAP_REBUILDS,
    ensures
        exit_step(s, exit).0.gap_rebuilds <= MAX_GAP_REBUILDS,
        exit_step(s, exit).1 is Rebuild ==> exit_step(s, exit).0.gap_rebuilds == s.gap_rebuilds + 1,
        exit_step(s, exit).1 !is Rebuild ==> exit_step(s, exit).0.gap_rebuilds == s.gap_rebuilds,
        exit_step(s, exit).1 is GiveUp <==> (exit matches WorkerExitView::Failed { gap, .. } && gap
            && s.gap_rebuilds == MAX_GAP_REBUILDS),
{
}

/// The pause never shrinks and never passes a minute.
pub proof fn law_backoff(secs: u64)
    requires
        1 <= secs <= MAX_BACKOFF_SECS,
    ensures
        secs <= next_backoff(secs) <= MAX_BACKOFF_SECS,
{
}

// ---- laws of positions --------------------------------------------------------------------

/// The volume has this letter, a capital, in either case.
pub open spec fn lettered(v: VolumeState, c: char) -> bool {
    v.volume_letter as char == c || ('a' <= v.volume_letter as char && v.volume_letter as char <= 'z'
        && v.volume_letter as u32 - 32 == c as u32)
}

proof fn lemma_lettered(v: VolumeState, c: char)
    requires
        !('a' <= c && c <= 'z'),
    ensures
        letter_of(v) == c <==> lettered(v, c),
{
}

/// Record `i` is the first volume with the letter.
pub open spec fn first_lettered(vols: Seq<VolumeState>, c: char, i: int) -> bool {
    &&& 0 <= i < vols.len()
    &&& lettered(vols[i], c)
    &&& forall|j: int| 0 <= j < i ==> !lettered(#[trigger] vols[j], c)
}

proof fn lemma_place_by_letter(vols: Seq<VolumeState>, c: char)
    requires
        !('a' <= c && c <= 'z'),
    ensures
        match place_of(vols, c) {
            Some(i) => first_lettered(vols, c, i),
            None => forall|j: int| 0 <= j < vols.len() ==> !lettered(#[trigger] vols[j], c),
        },
    decreases vols.len(),
{
    if vols.len() > 0 {
        let t = vols.drop_last();
        lemma_place_by_letter(t, c);
        assert(vols.last() == vols[vols.len() - 1]);
        lemma_lettered(vols.last(), c);
        match place_of(t, c) {
            Some(i) => {
                assert(vols[i] == t[i]);
                assert forall|j: int| 0 <= j < i implies !lettered(#[trigger] vols[j], c) by {
                    assert(vols[j] == t[j]);
                }
            },
            None => {
                assert forall|j: int| 0 <= j < t.len() implies !lettered(#[trigger] vols[j], c) by {
                    assert(vols[j] == t[j]);
                }
            },
        }
    }
}

proof fn lemma_first_place(vols: Seq<VolumeState>, c: char, i: int)
    requires
        !('a' <= c && c <= 'z'),
        first_lettered(vols, c, i),
    ensures
        place_of(vols, c) == Some(i),
{
    lemma_place_by_letter(vols, c);
    match place_of(vols, c) {
        Some(k) => {
            if k < i {
                assert(!lettered(vols[k], c));
            } else if i < k {
                assert(!lettered(vols[i], c));
            }
        },
        None => {
            assert(!lettered(vols[i], c));
        },
    }
}

/// A volume is read again from its own journal and its own position; one that the index does not
/// know, from those of the first volume. One whose journal has no number is not watched.
pub proof fn law_own_position_is_resumed(vols: Seq<VolumeState>, c: char, i: int)
    requires
        !('a' <= c && c <= 'z'),
    ensures
        first_lettered(vols, c, i) ==> resume_of(vols, c) == Some(
            (vols[i].usn_journal_id, vols[i].last_usn),
        ),
        first_lettered(vols, c, i) && vols[i].usn_journal_id != 0 ==> start_of(vols, c)
            == WatchStartView::From(vols[i].usn_journal_id, vols[i].last_usn),
        first_lettered(vols, c, i) && vols[i].usn_journal_id == 0 ==> start_of(vols, c) is NoJournal,
        vols.len() > 0 && (forall|j: int| 0 <= j < vols.len() ==> !lettered(#[trigger] vols[j], c))
            ==> start_of(vols, c) == WatchStartView::From(vols[0].usn_journal_id, vols[0].last_usn),
        vols.len() == 0 ==> start_of(vols, c) is NoVolumes && resume_of(vols, c) is None,
{
    lemma_place_by_letter(vols, c);
    if first_lettered(vols, c, i) {
        lemma_first_place(vols, c, i);
    }
    if vols.len() > 0 && (forall|j: int| 0 <= j < vols.len() ==> !lettered(#[trigger] vols[j], c)) {
        match place_of(vols, c) {
            Some(k) => {
                assert(!lettered(vols[k], c));
            },
            None => {},
        }
    }
}

/// Moving a position, or setting it back, touches the first volume with the letter and nothing else
/// of the index; setting it back leaves the journal of the volume.
pub proof fn law_only_one_position_moves(
    vols: Seq<VolumeState>,
    c: char,
    journal_id: u64,
    usn: u64,
    i: int,
    j: int,
)
    requires
        !('a' <= c && c <= 'z'),
        first_lettered(vols, c, i),
        0 <= j < vols.len(),
    ensures
        with_cursor(vols, c, journal_id, usn).len() == vols.len(),
        rewound(vols, c, usn).len() == vols.len(),
        j != i ==> with_cursor(vols, c, journal_id, usn)[j] == vols[j] && rewound(vols, c, usn)[j]
            == vols[j],
        ({
            let moved = with_cursor(vols, c, journal_id, usn)[i];
            &&& moved.volume_letter == vols[i].volume_letter
            &&& moved.first_entry_idx == vols[i].first_entry_idx
            &&& moved.usn_journal_id == journal_id
            &&& moved.last_usn == usn
        }),
        ({
            let back = rewound(vols, c, usn)[i];
            &&& back.volume_letter == vols[i].volume_letter
            &&& back.first_entry_idx == vols[i].first_entry_idx
            &&& back.usn_journal_id == vols[i].usn_journal_id
            &&& back.last_usn == usn
        }),
        frozen_of(vols, c) == vols[i].last_usn,
{
    lemma_first_place(vols, c, i);
}

/// A reader is warned exactly where something is unread and less than a twentieth of the journal
/// lies behind it.
pub proof fn law_warned_when_nearly_overtaken(first: i64, next: i64, cursor: i64)
    requires
        cursor - first <= i64::MAX,
    ensures
        wrap_warning(first, next, cursor) is Some <==> first < next && cursor < next && (cursor
            < first || cursor - first < (next - first) / 20) && (next - first) / 20 > 0,
{
}

/// What each message asks for: a refresh is handed on with its file and identifier, a report of a
/// position moves it there and ends what was shown and counted of earlier failures; nothing else
/// moves it.
pub proof fn law_messages_are_acted_on(
    s: WatchStateView,
    msg: UsnWatchMsgView,
    journal: Option<(i64, i64)>,
    now: u128,
    ready: bool,
)
    ensures
        ({
            let (t, step) = message_step(s, msg, journal, now, ready);
            match msg {
                UsnWatchMsgView::StatRefresh { file_id, file_id_128 } => t == s && step.stat == Some(
                    (file_id, file_id_128),
                ) && step.cursor is None && step.error is Keep && !step.save,
                UsnWatchMsgView::Checkpoint { journal_id, next_usn } => step.cursor == Some(
                    (journal_id, next_usn),
                ) && step.stat is None && t.gap_rebuilds == 0 && t.backoff_secs == 1 && !(
                step.error is Keep) && (journal is None ==> step.error is Clear),
                UsnWatchMsgView::Event(_) => step.stat is None && step.cursor is None
                    && step.error is Keep && !step.save && (t.batch_started == (if s.pending.len()
                    == 0 {
                    now
                } else {
                    s.batch_started
                })),
            }
        }),
        ({
            let (t, step) = message_step(s, msg, journal, now, ready);
            t.letter == s.letter && t.last_save == s.last_save && t.save_every == s.save_every
        }),
{
}

/// A gap in the journal rebuilds the volume, three times in a row at most; any other end of the
/// watcher restarts it, and the text says why.
pub proof fn law_end_of_the_watcher(s: WatchStateView, exit: WorkerExitView)
    ensures
        ({
            let (t, next) = exit_step(s, exit);
            match exit {
                WorkerExitView::Failed { gap, reason } => if gap {
                    &&& s.gap_rebuilds < 3 ==> next is Rebuild && t.gap_rebuilds == s.gap_rebuilds + 1
                    &&& s.gap_rebuilds >= 3 ==> next is GiveUp
                } else {
                    next is Restart && t.gap_rebuilds == s.gap_rebuilds
                },
                _ => next is Restart && t.gap_rebuilds == s.gap_rebuilds,
            }
        }),
        exit_step(s, exit).0.pending.len() == 0,
        exit_step(s, exit).0.backoff_secs == s.backoff_secs,
{
}

/// At the end of a turn changes that have waited long enough are handed over, all of them and in
/// their order; before that they stay.
pub proof fn law_changes_wait_for_a_batch(s: WatchStateView, now: u128)
    requires
        s.batch_started <= now,
    ensures
        s.pending.len() > 0 && now - s.batch_started >= 50_000_000 ==> turn_end(s, now).1
            == s.pending && turn_end(s, now).0.pending.len() == 0,
        now - s.batch_started < 50_000_000 ==> turn_end(s, now).1.len() == 0 && turn_end(
            s,
            now,
        ).0.pending == s.pending,
        turn_end(s, now).0.last_save == s.last_save,
        turn_end(s, now).0.save_every == s.save_every,
        turn_end(s, now).0.batch_started == s.batch_started,
{
}

/// Changes are handed over as soon as 4096 of them wait, all in the order in which they came.
pub proof fn law_full_batches_are_handed_over(
    s: WatchStateView,
    e: ChangeEventView,
    journal: Option<(i64, i64)>,
    now: u128,
    ready: bool,
)
    ensures
        ({
            let (t, step) = message_step(s, UsnWatchMsgView::Event(e), journal, now, ready);
            &&& s.pending.len() < 4095 ==> step.apply.len() == 0 && t.pending == s.pending.push(e)
            &&& s.pending.len() >= 4095 ==> step.apply == s.pending.push(e) && t.pending.len() == 0
        }),
{
}

/// Each pause after a failure is twice the one before, up to a minute.
pub proof fn law_pauses_double(secs: u64)
    requires
        secs <= 60,
    ensures
        secs <= 30 ==> next_backoff(secs) == 2 * secs,
        secs > 30 ==> next_backoff(secs) == 60,
{
}

/// The text of an end tells its reason, and one of missing rights also what to do.
pub proof fn law_reason_is_told(s: WatchStateView, reason: Seq<char>)
    ensures
        ({
            let hint =
                "打开卷被拒绝（权限不足）。请确认系统服务 FindX2Search 正在运行，而不是普通权限的 findx2-service。"@;
            let end = WorkerExitView::Failed { gap: false, reason };
            let no_rights = text::holds(reason, "拒绝访问"@) || text::holds(reason, "0x80070005"@)
                || text::holds(reason, "Access is denied"@);
            &&& no_rights ==> exit_step(s, end).1 == (RecoveryView::Restart { show: hint + reason })
            &&& !no_rights ==> exit_step(s, end).1 == (RecoveryView::Restart {
                show: "监听中断，重试中: "@ + reason,
            })
        }),
{
}

} // verus!
