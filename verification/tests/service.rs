use std::collections::HashSet;

use findx2::backfill::{self, BackfillAction, BackfillProblem, BackfillRun, BackfillStart, FinalStep, ScanEntry, TreeEntry, TreeStat};
use findx2::cli::{self, Cli, Platform, ServiceCmd, Task};
use findx2::full_index_build::{self, BuildStep};
use findx2::ipc_dispatch::{self, Dispatch, EngineState, IndexFacts, IpcRequest, IpcResponse, LineFailure};
use findx2::load_state::{self, LoadPhase, LoadState};
use findx2::model::ChangeEvent;
use findx2::overlay::{self, OverlayRec, SidecarRead};
use findx2::pipe_server::{self, ListenAction, ListenEvent, ListenState};
use findx2::rebuild::{self, RebuildRun, RebuildStep, StoreOutline};
use findx2::run::{self, EverythingMode, Gate, RunFlags, StartFacts, StartStep};
use findx2::run_unix::{self, TreeEvent};
use findx2::session_spawn;
use findx2::startup_compact::{self, AutoCompactOutcome, StoreState};
use findx2::stat_queue::{self, StatQueue};
use findx2::unix_path::{self, DirNode, PathEntry};
use findx2::usn::UsnWatchMsg;
use findx2::watch::{self, ErrorUpdate, FrozenVolumes, Recovery, VolumeState, WatchStart, WatchState, WorkerExit};
use findx2::watch_health::WatchHealth;
use findx2::win_service::{self, Control, InstallAction, InstallOptions, ServiceAction, ServicePhase};

// ---- the checkpoint of the backfill -------------------------------------------------------

fn overlay_rec(idx: u64) -> OverlayRec {
    OverlayRec { idx, size: 10 * idx, mtime_secs: 3, ctime_secs: 4 }
}

#[test]
fn checkpoints_are_read_back() {
    let recs = vec![overlay_rec(1), overlay_rec(7)];
    let b = overlay::encode_sidecar(100, &recs);
    assert_eq!(b.len(), 24 + 2 * 24);
    assert_eq!(&b[0..4], &0x4658_4F56u32.to_le_bytes());
    match overlay::decode_sidecar(&b, 100) {
        SidecarRead::Loaded(v) => {
            assert_eq!(v.len(), 2);
            assert_eq!((v[1].idx, v[1].size, v[1].mtime_secs, v[1].ctime_secs), (7, 70, 3, 4));
        },
        _ => panic!("the checkpoint belongs to the index"),
    }
}

#[test]
fn checkpoints_of_another_index_are_stale() {
    let b = overlay::encode_sidecar(100, &vec![overlay_rec(1)]);
    assert!(matches!(overlay::decode_sidecar(&b, 101), SidecarRead::Stale));
}

#[test]
fn checkpoints_cut_short_are_incomplete() {
    let b = overlay::encode_sidecar(100, &vec![overlay_rec(1), overlay_rec(2)]);
    for n in [0, 10, 23, 24, 40, b.len() - 1] {
        assert!(matches!(overlay::decode_sidecar(&b[..n], 100), SidecarRead::Incomplete), "{n}");
    }
    assert_eq!(overlay::overlay_sidecar_path("C:\\x\\index.bin"), "C:\\x\\index.bin.overlay.bin");
}

// ---- the backfill -------------------------------------------------------------------------

fn scan_entry(letter: char, is_dir: bool, size: u64, frn: u64, dir_idx: u32) -> ScanEntry {
    ScanEntry { is_dir, size, frn, letter, dir_idx }
}

fn scan_entries() -> Vec<ScanEntry> {
    vec![
        scan_entry('D', true, 0, 50, 0),
        scan_entry('D', false, 0, 51, 1),
        scan_entry('C', false, 0, 61, 2),
        scan_entry('C', false, 9, 62, 2),
        scan_entry('D', false, 0, 52, 1),
        scan_entry('C', false, 0, 0, 2),
        scan_entry('C', true, 0, 60, 0),
    ]
}

#[test]
fn pending_files_are_planned_by_volume() {
    let es = scan_entries();
    let mut plan = backfill::collect_pending(&es);
    assert_eq!(plan.len(), 2);
    assert_eq!((plan[0].letter, plan[0].files.clone(), plan[0].dirs.clone()), ('C', vec![(2, 61)], vec![60]));
    assert_eq!((plan[1].letter, plan[1].files.clone(), plan[1].dirs.clone()), ('D', vec![(1, 51), (4, 52)], vec![50]));
    assert_eq!(backfill::total_pending(&plan), 3);
    assert_eq!(backfill::dirs_to_list(&plan[1], &es, &vec![0, 50, 60]), vec![50]);
    backfill::drop_done(&mut plan, &HashSet::from([4, 2]));
    assert_eq!(plan[0].files, vec![]);
    assert_eq!(plan[1].files, vec![(1, 51)]);
    assert_eq!(backfill::total_pending(&plan), 1);
}

#[test]
fn listings_meet_pending_files() {
    let files = vec![(1, 51), (4, 52), (9, 53)];
    let recs = vec![(52, 7, 8, 9), (99, 1, 1, 1), (52, 0, 0, 0), (51, 3, 4, 5)];
    let (hits, left) = backfill::match_listings(&files, &recs);
    assert_eq!(hits, vec![(4, 7, 8, 9), (1, 3, 4, 5)]);
    assert_eq!(left, vec![(9, 53)]);
    assert_eq!(backfill::reindex(&vec![(0, 5, 6, 7)], &left), vec![(9, 5, 6, 7)]);
}

#[test]
fn progress_never_runs_backwards() {
    assert_eq!(backfill::progress_step(0, 1, 4, 100), (25, 25));
    assert_eq!(backfill::progress_step(25, 3, 4, 100), (75, 50));
    assert_eq!(backfill::progress_step(80, 3, 4, 100), (75, 0));
    assert_eq!(backfill::progress_step(0, 5, 0, 3), (15, 15));
}

#[test]
fn a_run_visits_every_volume_and_reports_failure() {
    let mut run = BackfillRun::new(backfill::collect_pending(&scan_entries()));
    assert!(matches!(run.action(), BackfillAction::Volume(0)));
    let files = run.vols[0].files.clone();
    let recs: Vec<_> = files.iter().map(|f| (f.1, 5, 6, 7)).collect();
    let (hits, left) = run.volume_listed(0, &recs);
    assert_eq!(hits, files.iter().map(|f| (f.0, 5, 6, 7)).collect::<Vec<_>>());
    assert!(left.is_empty() && run.done == files.len() as u64);
    assert!(run.volume_opened(0, &left, &vec![]).is_empty());
    assert!(matches!(run.action(), BackfillAction::Volume(1)));
    let (_, left) = run.volume_listed(1, &vec![]);
    assert_eq!(left, run.vols[1].files);
    let before = run.done;
    assert_eq!(run.volume_opened(1, &left, &vec![(0, 1, 2, 3)]), vec![(left[0].0, 1, 2, 3)]);
    assert_eq!(run.done, before + 1);
    assert!(matches!(run.action(), BackfillAction::Persist));
    let mut failed = BackfillRun::new(backfill::collect_pending(&scan_entries()));
    for k in 0..2 {
        let (_, left) = failed.volume_listed(k, &vec![]);
        failed.volume_opened(k, &left, &vec![]);
    }
    assert!(matches!(failed.action(), BackfillAction::Failed));
    let none = backfill::backfill_loop(&vec![scan_entry('C', true, 0, 1, 0)], &HashSet::new());
    assert!(matches!(none.action(), BackfillAction::NothingPending));
    let resumed = backfill::backfill_loop(&scan_entries(), &HashSet::from([4, 2]));
    assert_eq!(backfill::total_pending(&resumed.vols), 1);
}

#[test]
fn the_backfill_starts_once() {
    assert!(matches!(backfill::spawn_backfill(false, false, false), BackfillStart::Disabled));
    assert!(matches!(backfill::spawn_backfill(true, true, false), BackfillStart::NotNeeded));
    assert!(matches!(backfill::spawn_backfill(true, false, true), BackfillStart::AlreadyRunning));
    assert!(matches!(backfill::spawn_backfill(true, false, false), BackfillStart::Start));
    assert!(backfill::backfill_enabled(&None));
    assert!(!backfill::backfill_enabled(&Some("1".to_string())));
    assert!(!backfill::backfill_enabled(&Some("TRUE".to_string())));
    assert!(backfill::backfill_enabled(&Some("0".to_string())));
}

#[test]
fn backfill_problems_have_texts() {
    assert_eq!(
        backfill::backfill_error(&BackfillProblem::Disabled),
        "元数据回填已关闭（FINDX2_DISABLE_BACKFILL）；时间与大小筛选可能不准"
    );
    assert_eq!(backfill::backfill_error(&BackfillProblem::NoThread("x".into())), "无法启动回填线程：x");
    assert_eq!(backfill::backfill_error(&BackfillProblem::Broken("y".into())), "元数据回填异常：y");
    assert_eq!(
        backfill::backfill_error(&BackfillProblem::NothingFilled),
        "元数据回填失败（可能需要管理员权限）；时间与大小筛选可能不准"
    );
    assert_eq!(
        backfill::backfill_error(&BackfillProblem::NotWritten("z".into())),
        "元数据已补全但写入索引失败：z"
    );
}

#[test]
fn threads_leave_room() {
    assert_eq!(backfill::volume_threads(true, 16), 2);
    assert_eq!(backfill::volume_threads(false, 16), 14);
    assert_eq!(backfill::volume_threads(false, 3), 2);
    assert_eq!(backfill::volume_threads(false, 1), 1);
    assert_eq!(backfill::overlay_secs(-5), 0);
    assert_eq!(backfill::overlay_secs(77), 77);
    assert_eq!(backfill::overlay_secs(i64::MAX), u32::MAX);
}

// ---- watching a volume --------------------------------------------------------------------

fn vol(letter: u8, first: u32, journal: u64, usn: u64) -> VolumeState {
    VolumeState { volume_letter: letter, first_entry_idx: first, usn_journal_id: journal, last_usn: usn }
}

#[test]
fn the_saved_position_is_resumed() {
    let mut vols = vec![vol(b'c', 0, 7, 70), vol(b'D', 10, 8, 80)];
    let r = watch::resume_point(&vols, 'D').unwrap();
    assert_eq!((r.journal_id, r.start_usn), (8, 80));
    watch::set_cursor(&mut vols, 'C', 17, 170);
    let r = watch::resume_point(&vols, 'C').unwrap();
    assert_eq!((r.journal_id, r.start_usn), (17, 170));
    let r = watch::resume_point(&vols, 'Z').unwrap();
    assert_eq!((r.journal_id, r.start_usn), (17, 170));
    assert!(watch::resume_point(&vec![], 'C').is_none());
    assert!(matches!(watch::usn_watch_loop(&vols, 'D'), WatchStart::From(_)));
    assert!(matches!(watch::usn_watch_loop(&vec![vol(b'C', 0, 0, 0)], 'C'), WatchStart::NoJournal(_)));
    assert!(matches!(watch::usn_watch_loop(&vec![], 'C'), WatchStart::NoVolumes(_, _)));
}

#[test]
fn a_frozen_volume_goes_back() {
    let mut f = FrozenVolumes::new();
    assert!(!f.is_volume_frozen('C'));
    f.freeze_volume('c', true);
    assert!(f.is_volume_frozen('C'));
    f.freeze_volume('C', false);
    assert!(!f.is_volume_frozen('c'));
    let mut vols = vec![vol(b'C', 0, 7, 70)];
    let frozen = watch::frozen_cursor(&vols, 'C');
    watch::set_cursor(&mut vols, 'C', 7, 99);
    watch::rewind(&mut vols, 'C', frozen);
    assert_eq!(vols[0].last_usn, 70);
    assert_eq!(watch::frozen_cursor(&vols, 'Q'), 0);
}

#[test]
fn warnings_before_the_journal_wraps() {
    assert!(watch::probe_journal_wrap_warning(Some((0, 1000)), 1000).is_none());
    assert!(watch::probe_journal_wrap_warning(Some((0, 1000)), 60).is_none());
    assert_eq!(
        watch::probe_journal_wrap_warning(Some((0, 1000)), 10).unwrap(),
        "USN journal 未读记录即将被覆写（缓冲 10/1000），停机过久会触发全量重建"
    );
    assert!(watch::probe_journal_wrap_warning(None, 10).is_none());
}

fn delete(id: u64) -> UsnWatchMsg {
    UsnWatchMsg::Event(ChangeEvent::Delete { file_id: id })
}

fn ids(v: &Vec<ChangeEvent>) -> Vec<u64> {
    v.iter()
        .map(|e| match e {
            ChangeEvent::Delete { file_id } => *file_id,
            _ => 0,
        })
        .collect()
}

#[test]
fn changes_wait_for_their_batch() {
    let mut w = WatchState::new('c', 10, 0);
    assert_eq!(w.letter, 'C');
    let s = w.on_message(delete(1), None, 1_000_000, true);
    assert!(s.apply.is_empty() && !s.save && s.cursor.is_none());
    w.on_message(delete(2), None, 2_000_000, true);
    assert!(w.on_turn_end(40_000_000).is_empty());
    assert_eq!(ids(&w.on_turn_end(51_000_000)), vec![1, 2]);
    assert!(w.pending.is_empty());
}

#[test]
fn a_full_batch_is_applied_at_once() {
    let mut w = WatchState::new('C', 10, 0);
    for i in 1..watch::USN_BATCH_MAX_EVENTS as u64 {
        assert!(w.on_message(delete(i), None, 0, true).apply.is_empty());
    }
    let s = w.on_message(delete(9999), None, 0, true);
    assert_eq!(s.apply.len(), watch::USN_BATCH_MAX_EVENTS);
    assert_eq!(ids(&s.apply)[0], 1);
    assert!(w.pending.is_empty());
}

#[test]
fn checkpoints_apply_before_the_cursor_moves() {
    let mut w = WatchState::new('C', 10, 0);
    w.on_message(delete(5), None, 0, true);
    let s = w.on_message(
        UsnWatchMsg::Checkpoint { journal_id: 3, next_usn: 44 },
        Some((0, 1000)),
        11_000_000_000,
        true,
    );
    assert_eq!(ids(&s.apply), vec![5]);
    assert_eq!(s.cursor, Some((3, 44)));
    assert!(s.save);
    w.on_saved(11_000_000_000);
    assert!(!w.on_timeout(12_000_000_000, true).save);
}

#[test]
fn nothing_is_saved_before_the_metadata_is_complete() {
    let mut w = WatchState::new('C', 1, 0);
    let s = w.on_message(UsnWatchMsg::Checkpoint { journal_id: 3, next_usn: 4 }, None, 60_000_000_000, false);
    assert!(!s.save);
    assert!(!w.on_timeout(60_000_000_000, false).save);
    assert!(w.on_timeout(60_000_000_000, true).save);
}

#[test]
fn refreshes_are_handed_on_and_frozen_changes_dropped() {
    let mut w = WatchState::new('C', 1, 0);
    let s = w.on_message(UsnWatchMsg::StatRefresh { file_id: 8, file_id_128: None }, None, 0, true);
    assert_eq!(s.stat, Some((8, None)));
    w.on_message(delete(1), None, 0, true);
    w.on_frozen();
    assert!(w.pending.is_empty());
}

#[test]
fn gaps_rebuild_three_times() {
    let mut w = WatchState::new('C', 1, 0);
    let gap = WorkerExit::Failed { gap: true, reason: "断档".to_string() };
    for n in 1..=3 {
        match w.on_exit(&gap).1 {
            Recovery::Rebuild { show } => assert_eq!(show, format!("USN 日志断档，全卷重建中（{n}/3）…")),
            other => panic!("{other:?}"),
        }
    }
    match w.on_exit(&gap).1 {
        Recovery::GiveUp { show, error } => {
            assert_eq!(show, "USN 断档且自动重建已达上限，请手动重建索引");
            assert_eq!(error, "卷 C USN 断档重建达上限");
        },
        other => panic!("{other:?}"),
    }
    assert!(matches!(w.on_rebuilt(&Some("x".into())), ErrorUpdate::Show(t) if t == "重建失败: x，退避重试…"));
    assert!(matches!(w.on_rebuilt(&None), ErrorUpdate::Clear));
    assert_eq!(w.gap_rebuilds, 0);
}

#[test]
fn other_ends_restart_with_longer_pauses() {
    let mut w = WatchState::new('C', 1, 0);
    w.on_message(delete(3), None, 0, true);
    let (applied, next) = w.on_exit(&WorkerExit::Failed { gap: false, reason: "0x80070005".into() });
    assert_eq!(ids(&applied), vec![3]);
    assert!(matches!(next, Recovery::Restart { show } if show.starts_with("打开卷被拒绝")));
    assert!(matches!(w.on_exit(&WorkerExit::Panicked).1, Recovery::Restart { show } if show == "监听中断，重试中: watch 线程 panic"));
    let resume = watch::resume_point(&vec![vol(b'C', 0, 7, 70)], 'C');
    let pauses: Vec<u64> = (0..8).map(|_| w.on_restart(&resume).unwrap()).collect();
    assert_eq!(pauses, vec![1, 2, 4, 8, 16, 32, 60, 60]);
    assert_eq!(w.on_restart(&None).unwrap_err(), "卷 C 重启监听时索引中无卷元数据");
}

// ---- single files -------------------------------------------------------------------------

#[test]
fn stat_batches_are_sorted_and_unique() {
    let mut q = StatQueue::new();
    assert!(q.on_pause().is_none());
    assert!(q.on_item(9, None).is_none());
    assert!(q.on_item(3, Some([1; 16])).is_none());
    assert!(q.on_item(9, Some([2; 16])).is_none());
    let b = q.on_pause().unwrap();
    assert_eq!(b.0, vec![3, 9]);
    assert_eq!(b.1, vec![Some([1; 16]), Some([2; 16])]);
    assert!(q.on_pause().is_none());
    assert!(q.on_results(0));
    assert!(!q.on_results(0));
}

#[test]
fn a_full_stat_queue_is_drained() {
    let mut q = StatQueue::new();
    for i in 1..stat_queue::BATCH_SIZE as u64 {
        assert!(q.on_item(i, None).is_none());
    }
    assert_eq!(q.on_item(999_999, None).unwrap().0.len(), stat_queue::BATCH_SIZE);
    assert_eq!(
        stat_queue::stat_targets(&vec![(0, 1, 2, 3), (1, 4, 5, 6)], &vec![None, Some(77)]),
        vec![(77, 4, 5, 6)]
    );
}

// ---- rebuilding a volume ------------------------------------------------------------------

#[test]
fn a_rebuilt_volume_leaves_nothing_behind() {
    let old = StoreOutline {
        frns: vec![1, 2, 3, 4],
        volumes: vec![vol(b'C', 0, 7, 70), vol(b'D', 2, 8, 80)],
        excluded_dirs: vec!["C:\\tmp".to_string()],
    };
    assert_eq!(rebuild::volume_range(&old.volumes, 'C', 4), (0, 2));
    assert_eq!(rebuild::volume_range(&old.volumes, 'D', 4), (2, 4));
    let fresh = StoreOutline { frns: vec![11, 12, 13], volumes: vec![vol(b'C', 0, 9, 90)], excluded_dirs: vec![] };
    let merged = rebuild::merge_rebuilt_volume(old, fresh, 'C');
    assert_eq!(merged.frns, vec![3, 4, 11, 12, 13]);
    assert_eq!(merged.volumes, vec![vol(b'D', 0, 8, 80), vol(b'C', 2, 9, 90)]);
    assert_eq!(merged.excluded_dirs, vec!["C:\\tmp"]);
}

#[test]
fn a_rebuild_thaws_its_volume_in_the_end() {
    let mut f = FrozenVolumes::new();
    let vols = vec![vol(b'D', 0, 8, 80), vol(b'c', 2, 9, 90)];
    let mut run = rebuild::rebuild_volume(&mut f, &vols, 'c');
    assert_eq!((run.letter, run.frozen, run.step), ('C', 90, RebuildStep::Scan));
    let mut n = 0;
    while run.step != RebuildStep::Done {
        assert!(f.is_volume_frozen('C'));
        assert_eq!(run.on_step(&mut f, &None), Ok(run.step));
        n += 1;
    }
    assert_eq!(n, 9);
    assert!(!f.is_volume_frozen('C'));
    let mut run = rebuild::rebuild_volume(&mut f, &vols, 'c');
    assert!(f.is_volume_frozen('C'));
    let e = run.on_step(&mut f, &Some("x".into())).unwrap_err();
    assert_eq!(e, "卷 C MFT 重枚举失败: x");
    assert!(!f.is_volume_frozen('C'));
    let text = |step| {
        let mut run = RebuildRun { letter: 'D', frozen: 0, step };
        run.on_step(&mut FrozenVolumes::new(), &Some("x".into())).unwrap_err()
    };
    assert_eq!(text(RebuildStep::ProbeJournal), "卷 D journal 探测失败: x");
    assert_eq!(text(RebuildStep::Build), "卷 D 索引构建失败: x");
    assert_eq!(text(RebuildStep::Merge), "卷 D 索引合并失败: x");
    assert_eq!(text(RebuildStep::Persist), "x");
}

#[test]
fn a_rebuilt_volume_is_read_again_from_where_it_stopped() {
    let before = vec![vol(b'C', 0, 9, 90), vol(b'D', 2, 8, 80)];
    let run = rebuild::rebuild_volume(&mut FrozenVolumes::new(), &before, 'C');
    let old = StoreOutline { frns: vec![1, 2, 3], volumes: before, excluded_dirs: vec![] };
    let fresh = StoreOutline { frns: vec![11], volumes: vec![vol(b'C', 0, 10, 999)], excluded_dirs: vec![] };
    let new = run.swapped_index(old, fresh);
    assert_eq!(new.frns, vec![3, 11]);
    assert_eq!(new.volumes, vec![vol(b'D', 0, 8, 80), vol(b'C', 1, 10, 90)]);
    let r = watch::resume_point(&new.volumes, 'C').unwrap();
    assert_eq!((r.journal_id, r.start_usn), (10, 90));
}

// ---- loading ------------------------------------------------------------------------------

#[test]
fn load_stages_are_shown_while_loading() {
    let mut s = LoadState::new();
    assert!(load_state::snapshot(&s, 0).is_none());
    load_state::note_phase(&mut s, LoadPhase::Open, 1_000_000_000);
    load_state::note_phase(&mut s, LoadPhase::Entries, 4_000_000_000);
    load_state::note_entry_count(&mut s, 310_000_000);
    let snap = load_state::snapshot(&s, 5_000_000_000).unwrap();
    assert_eq!((snap.phases_done, snap.phases_total), (3, 8));
    assert_eq!(load_state::elapsed_secs(&snap, 43_000_000_000), 42);
    assert_eq!(
        load_state::progress_line_of(&snap, 43_000_000_000),
        "解析条目（3/8 阶段，已 42s，共 3.1 亿条）"
    );
    load_state::note_entry_count(&mut s, 8_500_000);
    let snap = load_state::snapshot(&s, 5_000_000_000).unwrap();
    assert_eq!(load_state::progress_line_of(&snap, 1_000_000_000), "解析条目（3/8 阶段，共 8500000 条）");
    load_state::note_finished(&mut s, 9_000_000_000);
    assert!(load_state::snapshot(&s, 9_000_000_000).is_none());
    assert_eq!(load_state::phase_ordinal(LoadPhase::CjkBitmap), 8);
    assert_eq!(LoadPhase::Open.label(), "打开索引文件");
}

#[test]
fn compaction_is_a_stage_of_its_own() {
    let mut s = LoadState::new();
    load_state::note_phase(&mut s, LoadPhase::CjkBitmap, 0);
    load_state::note_finished(&mut s, 1);
    load_state::note_compaction_started(&mut s, 12);
    let snap = load_state::snapshot(&s, 0).unwrap();
    assert_eq!(load_state::progress_line_of(&snap, 0), "自动压缩墓碑（9/9 阶段，共 12 条）");
    load_state::note_compaction_finished(&mut s);
    assert!(load_state::snapshot(&s, 0).is_none());
}

#[test]
fn skips_when_below_threshold() {
    let mut store = StoreState { entries: 6, tombstones: 1, tables: true };
    let out = startup_compact::auto_compact_if_needed(&mut store, 0, 6, false).unwrap();
    assert_eq!(out, AutoCompactOutcome::Skipped);
    assert_eq!(store, StoreState { entries: 6, tombstones: 1, tables: true });
}

#[test]
fn compacts_and_persists_when_threshold_hit() {
    const N: usize = 140_000;
    const TOMBS: usize = 50_000;
    let mut entries: Vec<(String, bool)> = vec![("data".to_string(), false)];
    entries.extend((0..N).map(|i| (format!("f{i}.log"), i < TOMBS)));
    let n_before = entries.len();
    assert_eq!(n_before, N + 1, "文件条目 + 1 个目录");
    let deleted = entries.iter().filter(|e| e.1).count();
    let mut store = StoreState { entries: n_before as u64, tombstones: deleted as u64, tables: true };
    assert!(startup_compact::should_compact(store.entries, store.tombstones), "35.7% 墓碑必须命中体检");

    entries.retain(|e| !e.1);
    let removed_now = (n_before - entries.len()) as u64;
    let saved = entries.clone();
    let out = startup_compact::auto_compact_if_needed(&mut store, removed_now, entries.len() as u64, true).unwrap();
    let AutoCompactOutcome::Compacted { removed, saved_ok } = out else {
        panic!("命中阈值必须压缩，实际 {out:?}");
    };
    assert_eq!(removed, TOMBS as u64, "被移除的墓碑数");
    assert!(saved_ok, "落盘应当成功");
    assert_eq!(store.entries, (n_before - TOMBS) as u64);
    assert_eq!(store.tombstones, 0);
    assert!(!store.tables, "压缩后 tri 必须置空交后台重建");
    assert!(!startup_compact::should_compact(store.entries, store.tombstones));

    assert_eq!(saved.iter().filter(|e| e.1).count(), 0, "文件里的墓碑必须已物理移除");
    assert_eq!(saved.len(), n_before - TOMBS);
    assert_eq!(saved.iter().filter(|e| e.0 == "f60000.log").count(), 1, "存活条目压缩后必须仍可命中");

    let flags = RunFlags { no_everything_ipc: false, no_backfill: false, extra_excluded_dirs: vec![] };
    let facts = run::after_compaction(run::start_facts(&flags, false), out);
    assert_eq!(run::run_foreground(StartStep::Publish, facts, &None), Ok(StartStep::RebuildTables));
    let facts = run::after_compaction(run::start_facts(&flags, false), AutoCompactOutcome::Skipped);
    assert_eq!(run::run_foreground(StartStep::Publish, facts, &None), Ok(StartStep::Window));
}

#[test]
fn a_failed_save_leaves_the_removal_standing() {
    let mut store = StoreState { entries: 140_001, tombstones: 50_000, tables: true };
    let out = startup_compact::auto_compact_if_needed(&mut store, 50_000, 90_001, false).unwrap();
    assert_eq!(out, AutoCompactOutcome::Compacted { removed: 50_000, saved_ok: false });
    assert_eq!(store, StoreState { entries: 90_001, tombstones: 0, tables: false });
}

#[test]
fn a_suspicious_compaction_is_refused() {
    let mut store = StoreState { entries: 140_001, tombstones: 50_000, tables: true };
    let e = startup_compact::auto_compact_if_needed(&mut store, 60_000, 80_001, true).unwrap_err();
    assert_eq!(
        e,
        "启动自动压缩守卫触发：预期保留 90001 条（140001 - 50000 墓碑），实际 80001 条。已放弃落盘且拒绝以可疑索引启动。这是 bug，请反馈。"
    );
    assert!(startup_compact::check_compacted(10, 4, 6).is_ok());
    assert!(!startup_compact::should_compact(100_000, 25_000));
    assert!(startup_compact::should_compact(100_000, 25_001));
    assert!(!startup_compact::should_compact(99_999, 99_999));
    assert_eq!(startup_compact::temp_file_name(Some("i.bin")), "i.bin.compact.tmp");
    assert_eq!(startup_compact::temp_file_name(None), "index.bin.compact.tmp");
}

// ---- problems and replies -----------------------------------------------------------------

#[test]
fn problems_are_summed_up_in_order() {
    let mut h = WatchHealth::new();
    assert!(h.watch_error_summary().is_none());
    h.set_watch_error('D', Some("two".to_string()));
    h.set_watch_error('C', Some("one".to_string()));
    h.set_watch_error_id("/data", Some("three".to_string()));
    assert_eq!(h.watch_error_summary().unwrap(), "/data: three; C: one; D: two");
    h.set_watch_error('D', Some("new".to_string()));
    h.set_watch_error('C', None);
    assert_eq!(h.watch_error_summary().unwrap(), "/data: three; D: new");
    h.set_watch_error_id("/data", None);
    h.set_watch_error('D', None);
    assert!(h.watch_error_summary().is_none());
}

fn facts(ready: bool) -> IndexFacts {
    IndexFacts {
        entry_count: 10,
        dir_count: 2,
        tombstone_count: 1,
        first_volume: Some(vol(b'C', 0, 7, 70)),
        metadata_ready: ready,
    }
}

#[test]
fn status_ipc_reports_loading_stage_progress() {
    let mut s = LoadState::new();
    load_state::note_phase(&mut s, LoadPhase::Dirs, 0);
    let snap = load_state::snapshot(&s, 0);
    let r = ipc_dispatch::status_report(&EngineState::Missing, &snap, 7_000_000_000, None);
    assert!(r.loading);
    let stage = r.loading_stage.unwrap();
    assert!(!stage.is_empty());
    assert_eq!(stage.split('（').next().unwrap().trim(), "解析目录");
    assert_eq!((r.loading_elapsed_secs, r.loading_phase_done, r.loading_phase_total), (Some(7), Some(4), Some(8)));
    assert!(!r.healthy);
}

#[test]
fn status_of_a_loaded_index() {
    let e = EngineState::Present { facts: Some(facts(false)), backfill: (3, 9), backfill_error: None };
    let r = ipc_dispatch::status_report(&e, &None, 0, Some("C: x".to_string()));
    assert!(!r.loading && r.healthy);
    assert_eq!((r.entry_count, r.dir_count, r.tombstone_count), (10, 2, 1));
    assert_eq!((r.last_usn, r.journal_id, r.volume_letter), (70, 7, Some('C')));
    assert_eq!((r.backfill_done, r.backfill_total), (3, 9));
    assert_eq!(r.watch_error.as_deref(), Some("C: x"));
    let e = EngineState::Present { facts: Some(facts(true)), backfill: (3, 9), backfill_error: None };
    let r = ipc_dispatch::status_report(&e, &None, 0, None);
    assert_eq!((r.metadata_ready, r.backfill_done, r.backfill_total), (true, 0, 0));
}

#[test]
fn requests_are_dispatched() {
    let present = EngineState::Present { facts: Some(facts(true)), backfill: (0, 0), backfill_error: None };
    assert!(matches!(
        ipc_dispatch::process_request(IpcRequest::Ping, &EngineState::Missing, &None, 0, None),
        Dispatch::Reply(IpcResponse::Pong)
    ));
    assert!(matches!(
        ipc_dispatch::process_request(IpcRequest::Status, &present, &None, 0, None),
        Dispatch::Reply(IpcResponse::StatusResult(_))
    ));
    let search = || IpcRequest::Search { query: "a".into(), pinyin: true, limit: 5, offset: 2 };
    assert!(matches!(
        ipc_dispatch::process_request(search(), &present, &None, 0, None),
        Dispatch::Search { limit: 5, offset: 2, pinyin: true, .. }
    ));
    assert!(matches!(
        ipc_dispatch::process_request(search(), &EngineState::Missing, &None, 0, None),
        Dispatch::Reply(IpcResponse::Error { .. })
    ));
    assert_eq!(ipc_dispatch::req_kind_label(&search()), "Search");
}

#[test]
fn replies_are_one_line() {
    assert_eq!(ipc_dispatch::reply_line("{}"), "{}\n");
    assert!(ipc_dispatch::request_in_line("  \n").is_none());
    assert_eq!(ipc_dispatch::request_in_line(" {\"a\":1}\r\n").unwrap(), "{\"a\":1}");
    assert!(matches!(
        ipc_dispatch::failure_reply(&LineFailure::NotARequest("x".into())),
        IpcResponse::Error { .. }
    ));
    assert_eq!(ipc_dispatch::elapsed_millis(1_999_999), 1);
    assert_eq!(ipc_dispatch::page_limit(0, 7), 7);
    assert_eq!(ipc_dispatch::page_limit(3, 7), 3);
    assert!(matches!(
        ipc_dispatch::search_reply(Err("bad".into()), 0),
        IpcResponse::Error { message } if message.contains("bad")
    ));
    assert!(matches!(
        ipc_dispatch::search_reply(Ok((vec![], 4)), 2_000_000),
        IpcResponse::SearchResult { total: 4, elapsed_ms: 2, .. }
    ));
    let hit = ipc_dispatch::EngineHit {
        entry_idx: 1,
        name: "n".into(),
        path: "p".into(),
        size: 2,
        mtime: 3,
        name_highlight: vec![[0, 1]],
    };
    let d = ipc_dispatch::hit_dto(hit, &vec![false, true]);
    assert!(d.is_directory && d.name == "n" && d.name_highlight == vec![[0, 1]]);
}

// ---- the pipe -----------------------------------------------------------------------------

#[test]
fn pipe_names_are_full_names() {
    assert_eq!(pipe_server::normalize_pipe_path("findx2"), "\\\\.\\pipe\\findx2");
    assert_eq!(pipe_server::normalize_pipe_path("\\\\.\\pipe\\x"), "\\\\.\\pipe\\x");
}

#[test]
fn the_next_pipe_comes_before_serving() {
    let step = |s, e: &ListenEvent| pipe_server::pipe_accept_loop(s, e, "first");
    let failed = ListenEvent::Failed("e".to_string());
    let (s, a) = step(ListenState::Opening { first: true }, &failed);
    assert!(matches!((s, a), (ListenState::Opening { first: false }, ListenAction::Create { first: false })));
    let (_, a) = step(ListenState::Opening { first: false }, &failed);
    assert!(matches!(a, ListenAction::Stop(t) if t == "创建命名管道失败: first；重试: e"));
    let (s, a) = step(ListenState::Opening { first: true }, &ListenEvent::Done);
    assert!(matches!((s, a), (ListenState::Listening, ListenAction::Connect)));
    let (s, a) = step(ListenState::Listening, &ListenEvent::Done);
    assert!(matches!((s, a), (ListenState::Replacing { retried: false }, ListenAction::Create { first: false })));
    let (s, a) = step(ListenState::Replacing { retried: false }, &failed);
    assert!(matches!((s, a), (ListenState::Replacing { retried: true }, ListenAction::PauseThenRetry)));
    let (_, a) = step(ListenState::Replacing { retried: true }, &failed);
    assert!(matches!(a, ListenAction::Stop(t) if t == "创建后续管道实例两次均失败: first; e"));
    let (s, a) = step(ListenState::Replacing { retried: true }, &ListenEvent::Done);
    assert!(matches!((s, a), (ListenState::Listening, ListenAction::Serve)));
}

// ---- command line and service -------------------------------------------------------------

#[test]
fn command_lines_choose_a_task() {
    let mut c = Cli::default();
    assert_eq!((c.index.as_str(), c.pipe.as_str(), c.max_scan_threads), ("index.bin", "findx2", 4));
    assert_eq!(cli::choose_task(&c, Platform::Windows), Ok(Task::Foreground));
    c.service = true;
    assert_eq!(cli::choose_task(&c, Platform::Windows), Ok(Task::Service));
    c.everything_host = true;
    assert_eq!(cli::choose_task(&c, Platform::Windows), Ok(Task::EverythingHost));
    c.cmd = Some(ServiceCmd::Install);
    assert_eq!(cli::choose_task(&c, Platform::Windows), Ok(Task::Install));
    assert_eq!(cli::choose_task(&c, Platform::Unix), Err("install/uninstall 仅支持 Windows 服务".to_string()));
    c.cmd = Some(ServiceCmd::Uninstall);
    assert_eq!(cli::choose_task(&c, Platform::Windows), Ok(Task::Uninstall));
    assert_eq!(cli::choose_task(&c, Platform::Other), Err("findx2-service 不支持当前平台".to_string()));
}

#[test]
fn the_registered_command_line() {
    let o = InstallOptions {
        index: "i".into(),
        volume: "C:".into(),
        pipe: "p".into(),
        save_interval_secs: 30,
        full_stat: true,
        max_scan_threads: 8,
        no_everything_ipc: false,
        no_backfill: true,
        exclude_dir: vec![" a ".into(), "  ".into()],
    };
    assert_eq!(
        win_service::install_args(&o).join("|"),
        "--service|--index|i|--volume|C:|--pipe|p|--save-interval-secs|30|--full-stat|--max-scan-threads|8|--no-backfill|--exclude-dir| a "
    );
    let mut v = vec!["x".to_string()];
    win_service::push_exclude_args(&mut v, &vec!["d".to_string()]);
    assert_eq!(v, vec!["x", "--exclude-dir", "d"]);
}

#[test]
fn registering_is_tried_again() {
    let after = win_service::install(19, "e");
    assert!(matches!(after[0], InstallAction::DeleteExisting) && matches!(after[1], InstallAction::Pause(250)));
    assert!(after.len() == 3 && matches!(after[2], InstallAction::Register));
    let after = win_service::install(20, "e");
    assert!(matches!(after[0], InstallAction::DeleteExisting) && matches!(after[1], InstallAction::Pause(250)));
    assert!(matches!(&after[2], InstallAction::Fail(t) if t == "注册服务 FindX2Search 失败: e"));
    assert_eq!(win_service::uninstall(Ok(())).unwrap(), "已标记删除服务 FindX2Search（停止后生效）");
    assert_eq!(
        win_service::uninstall(Err("none".into())).unwrap(),
        "卸载服务 FindX2Search：none（可能尚未注册）"
    );
    assert_eq!(win_service::service_name(), "FindX2Search");
}

#[test]
fn stopping_is_bounded() {
    let s = 1_000_000_000u128;
    assert_eq!(win_service::on_control(Control::Other).0, false);
    let (p, a) = win_service::service_main_impl(ServicePhase::Running, false, false, s);
    assert!(matches!((p, a), (ServicePhase::Running, ServiceAction::Wait(_))));
    let (p, a) = win_service::service_main_impl(ServicePhase::Running, true, false, s);
    assert!(matches!(a, ServiceAction::ReportStopping));
    let (p2, a) = win_service::service_main_impl(p, true, false, s + 1);
    assert!(matches!(a, ServiceAction::Wait(_)));
    let (_, a) = win_service::service_main_impl(p2, true, true, s + 2);
    assert!(matches!(a, ServiceAction::ReportStopped));
    let (_, a) = win_service::service_main_impl(p2, true, false, s + win_service::STOP_NANOS + 1);
    assert!(matches!(a, ServiceAction::ForceExit));
}

#[test]
fn the_helper_needs_a_session() {
    assert_eq!(
        session_spawn::spawn_everything_host(2, "C:\\f.exe", "findx2").unwrap(),
        "\"C:\\f.exe\" --everything-host --pipe findx2"
    );
    assert_eq!(session_spawn::spawn_everything_host(0, "f", "p").unwrap_err(), "当前没有交互用户会话");
    assert!(session_spawn::spawn_everything_host(u32::MAX, "f", "p").is_err());
}

// ---- running ------------------------------------------------------------------------------

#[test]
fn the_service_needs_an_index() {
    assert!(run::require_index("i", true).is_ok());
    assert_eq!(
        run::require_index("i.bin", false).unwrap_err(),
        "索引文件 i.bin 不存在。findx2-service 不再自动建库；请先用 `findx2 index --output i.bin` 建库（建库需管理员权限）后再启动服务。"
    );
    assert_eq!(run::everything_mode(true, 0), EverythingMode::Off);
    assert_eq!(run::everything_mode(false, 0), EverythingMode::Helper);
    assert_eq!(run::everything_mode(false, 3), EverythingMode::Own);
    assert!(run::backfill_notice(false).is_none());
    assert_eq!(
        run::backfill_notice(true).unwrap(),
        "元数据回填已关闭（设置或 --no-backfill）；时间与大小筛选可能不准"
    );
    assert_eq!(run::save_interval(0), 1);
    assert_eq!(run::save_interval(9), 9);
}

#[test]
fn excluded_directories_are_a_union() {
    let have = vec!["a".to_string(), "b".to_string()];
    let extra = vec![Some("b".to_string()), None, Some("c".to_string()), Some("c".to_string())];
    assert_eq!(run::union_excluded(&have, &extra), vec!["a", "b", "c"]);
    let facts = StartFacts { excludes: true, tables_missing: false };
    assert_eq!(run::start_exclusions(facts, &have, &extra).unwrap(), vec!["a", "b", "c"]);
    let facts = StartFacts { excludes: false, tables_missing: false };
    assert!(run::start_exclusions(facts, &have, &extra).is_none());
}

#[test]
fn volumes_to_watch_fall_back_to_the_command_line() {
    assert_eq!(run::volumes_to_watch(&vec![vol(b'd', 0, 1, 1), vol(b'C', 5, 1, 1)], "E:"), vec!['D', 'C']);
    assert_eq!(run::volumes_to_watch(&vec![], "e:"), vec!['E']);
    assert_eq!(run::volume_of('D'), "D:");
}

#[test]
fn gates_let_one_through() {
    let mut g = Gate::new();
    assert!(!run::maybe_rebuild_trigram(&mut g, false));
    assert!(run::maybe_rebuild_trigram(&mut g, true));
    assert!(!run::maybe_rebuild_trigram(&mut g, true));
    assert!(!g.acquire());
    g.release();
    assert!(g.acquire());
}

#[test]
fn unix_volumes_ignore_drive_letters() {
    assert_eq!(run_unix::normalize_unix_volume(" c:\\ "), "");
    assert_eq!(run_unix::normalize_unix_volume("C:"), "");
    assert_eq!(run_unix::normalize_unix_volume(" /data "), "/data");
    assert_eq!(run_unix::normalize_unix_volume(&run_unix::normalize_unix_volume(" /data ")), "/data");
    assert_eq!(run_unix::watch_root_for_volume("/", "C:", "/home"), "/home");
    assert_eq!(run_unix::watch_root_for_volume("/", "/data", "/home"), "/data");
    assert_eq!(run_unix::watch_root_for_volume("/mnt", "/data", "/home"), "/mnt");
    assert_eq!(run_unix::build_roots("/a, ,/b"), vec!["/a", "/b"]);
    assert!(run_unix::build_roots("c:").is_empty());
    assert_eq!(run_unix::save_interval(1), 5);
    assert_eq!(run_unix::save_interval(6), 6);
}

#[test]
fn a_lost_tree_watcher_rebuilds() {
    assert!(run_unix::on_tree_event(TreeEvent::Change).apply);
    assert!(run_unix::on_tree_event(TreeEvent::Quiet).rebuild.is_none());
    assert_eq!(run_unix::on_tree_event(TreeEvent::Gone).rebuild.unwrap(), "增量监听中断，正在重建");
    assert!(run_unix::after_rebuild(Ok(())).0.is_none());
    assert!(run_unix::after_rebuild(Err("x".into())).0.unwrap().contains('x'));
}

// ---- building an index --------------------------------------------------------------------

#[test]
fn build_progress_is_told() {
    let (mut b, p) = full_index_build::build_full_disk_index(2, vec![]);
    assert_eq!(p.phase.name(), "starting");
    assert_eq!(p.message, "准备扫描 2 个卷…");
    assert_eq!(b.tick(15).message, "MFT 枚举中…已收录 15 条（0/2 卷已完成）");
    let p = b.volume_finished("C:", 100);
    assert_eq!(p.message, "卷 C: 已入索引（1/2 卷，累计约 100 条）");
    b.volume_finished("D:", 50);
    let p = b.merge_started(2, 150);
    assert_eq!((p.phase.name().as_str(), p.volumes_completed, p.message.as_str()), ("merging", 2, "合并多卷索引…"));
    assert_eq!(b.merge_started(1, 150).message, "整理内存索引…");
    let p = b.write_started("o.bin", 150);
    assert_eq!(p.message, "写入 o.bin（150 条）…");
    assert_eq!(p.volumes_completed, 2);
    assert!(full_index_build::finished_line("o.bin", 150).contains("o.bin"));
}

#[test]
fn one_failed_volume_fails_the_build() {
    assert!(full_index_build::build_failure(&vec![None, None]).is_none());
    assert_eq!(
        full_index_build::build_failure(&vec![None, Some("a".into()), Some("b".into())]).unwrap(),
        "a"
    );
}

#[test]
fn the_progress_file_goes_last() {
    let steps = |given: Vec<Option<String>>| {
        let (b, _) = full_index_build::build_full_disk_index(1, given);
        let mut seen = vec![full_index_build::first_build_step(&vec![None]).unwrap()];
        while *seen.last().unwrap() != BuildStep::Done {
            seen.push(b.next_build_step(seen.last().unwrap(), &None).unwrap());
        }
        seen
    };
    let list = vec!["c:\\tmp".to_string(), "d:\\x".to_string()];
    assert_eq!(
        steps(vec![Some(list[0].clone()), None, Some(list[1].clone())]),
        vec![
            BuildStep::Merge,
            BuildStep::Exclude(list.clone()),
            BuildStep::Write,
            BuildStep::WriteExclusions(list),
            BuildStep::RemoveProgress,
            BuildStep::Done,
        ]
    );
    assert_eq!(
        steps(vec![None]),
        vec![
            BuildStep::Merge,
            BuildStep::Write,
            BuildStep::WriteExclusions(vec![]),
            BuildStep::RemoveProgress,
            BuildStep::Done,
        ]
    );
    let failed = Some("full".to_string());
    let (b, _) = full_index_build::build_full_disk_index(1, vec![]);
    assert_eq!(b.next_build_step(&BuildStep::Write, &failed), Err("full".to_string()));
    assert_eq!(b.next_build_step(&BuildStep::RemoveProgress, &failed), Ok(BuildStep::Done));
    assert_eq!(full_index_build::first_build_step(&vec![None, failed]), Err("full".to_string()));
}

// ---- the order of a start -----------------------------------------------------------------

#[test]
fn a_start_listens_before_it_loads() {
    assert!(run::first_step("i.bin", false).unwrap_err().starts_with("索引文件 i.bin 不存在。"));
    let steps = |excludes: bool, tables_missing| {
        let dirs = if excludes { vec!["C:\\t".to_string()] } else { vec![] };
        let flags = RunFlags { no_everything_ipc: false, no_backfill: false, extra_excluded_dirs: dirs };
        let f = run::start_facts(&flags, tables_missing);
        let mut s = run::first_step("i.bin", true).unwrap();
        let mut v = vec![s];
        while s != StartStep::Ended {
            s = run::run_foreground(s, f, &None).unwrap();
            v.push(s);
        }
        v
    };
    assert_eq!(
        steps(true, true),
        vec![
            StartStep::Listen,
            StartStep::LoadIndex,
            StartStep::Compact,
            StartStep::Exclude,
            StartStep::Publish,
            StartStep::RebuildTables,
            StartStep::Window,
            StartStep::Backfill,
            StartStep::Journals,
            StartStep::Watch,
            StartStep::Serve,
            StartStep::Ended,
        ]
    );
    assert_eq!(steps(false, false).len(), 10);
    let f = StartFacts { excludes: false, tables_missing: false };
    let e = Some("x".to_string());
    assert_eq!(run::run_foreground(StartStep::Listen, f, &e), Err("spawn named pipe 线程失败: x".to_string()));
    assert_eq!(run::run_foreground(StartStep::LoadIndex, f, &e), Err("x".to_string()));
    assert_eq!(run::run_foreground(StartStep::Compact, f, &e), Err("x".to_string()));
    assert_eq!(run::run_foreground(StartStep::Serve, f, &e), Err("named pipe 线程异常结束".to_string()));
    assert_eq!(run::run_foreground(StartStep::Journals, f, &e), Ok(StartStep::Watch));
}

#[test]
fn the_last_save_keeps_what_was_filled_in() {
    let e = Some("x".to_string());
    assert_eq!(backfill::spawn_final_persist(FinalStep::MarkReady, &None), (FinalStep::Save, None));
    assert_eq!(
        backfill::spawn_final_persist(FinalStep::MarkReady, &e),
        (FinalStep::Ended, Some("元数据已补全但写入索引失败：x".to_string()))
    );
    assert_eq!(backfill::spawn_final_persist(FinalStep::Save, &e), (FinalStep::Ended, None));
    assert_eq!(backfill::spawn_final_persist(FinalStep::Save, &None), (FinalStep::RemoveSidecar, None));
    assert_eq!(backfill::spawn_final_persist(FinalStep::RemoveSidecar, &None), (FinalStep::Ended, None));
}

#[test]
fn rebuilding_leaves_other_volumes_alone() {
    let v = |letter: u8, first_entry_idx: u32| VolumeState { volume_letter: letter, first_entry_idx, usn_journal_id: 1, last_usn: 2 };
    let old = StoreOutline {
        frns: vec![1, 2, 30, 31, 32, 4],
        volumes: vec![v(b'C', 0), v(b'D', 2), v(b'E', 5)],
        excluded_dirs: vec!["x".to_string()],
    };
    let fresh = StoreOutline { frns: vec![70, 71], volumes: vec![v(b'd', 0)], excluded_dirs: vec![] };
    let m = rebuild::merge_rebuilt_volume(old, fresh, 'D');
    assert_eq!(m.frns, vec![1, 2, 4, 70, 71]);
    assert_eq!(m.volumes.iter().map(|v| (v.volume_letter, v.first_entry_idx)).collect::<Vec<_>>(), vec![(b'C', 0), (b'E', 2), (b'd', 3)]);
    assert_eq!(m.excluded_dirs, vec!["x".to_string()]);
    let part = |c| {
        let (a, b) = rebuild::volume_range(&m.volumes, c, m.frns.len());
        m.frns[a..b].to_vec()
    };
    assert_eq!((part('C'), part('E'), part('D')), (vec![1, 2], vec![4], vec![70, 71]));
}

#[test]
fn trees_are_filled_in_too() {
    assert_eq!([1, 2, 4, 9, 64].map(backfill::tree_threads), [2, 2, 3, 8, 8]);
    let e = |is_dir, size, has_path| TreeEntry { is_dir, size, has_path };
    let es = vec![e(true, 0, true), e(false, 0, true), e(false, 3, true), e(false, 0, false), e(false, 0, true), e(false, 0, true)];
    let done: HashSet<u64> = [5].into_iter().collect();
    assert_eq!(backfill::collect_tree_pending(&es, &done), vec![1, 4]);
    let stats = vec![
        Some(TreeStat { is_dir: false, size: 9, mtime: -5, ctime: 0x1_0000_0007 }),
        Some(TreeStat { is_dir: true, size: 1, mtime: 1, ctime: 1 }),
        None,
    ];
    let r = backfill::tree_updates(&vec![1, 4, 6], &stats);
    assert_eq!(r, vec![OverlayRec { idx: 1, size: 9, mtime_secs: 0, ctime_secs: 7 }]);
}

#[test]
fn listed_files_are_not_opened_again() {
    let files = vec![(0, 70), (1, 71), (2, 72)];
    let (hits, left) = backfill::match_listings(&files, &vec![(71, 5, 6, 7), (71, 9, 9, 9), (99, 1, 1, 1)]);
    assert_eq!(hits, vec![(1, 5, 6, 7)]);
    assert_eq!(left, vec![(0, 70), (2, 72)]);
    assert_eq!(backfill::reindex(&vec![(1, 3, 4, 5)], &left), vec![(2, 3, 4, 5)]);
    assert!(hits.len() + left.len() <= files.len());
}

#[test]
fn trees_have_roots_and_are_saved_in_time() {
    let p = vec!["/data".to_string(), "/".to_string()];
    assert_eq!(run_unix::roots_to_watch(&p, "/home", "/d"), vec!["/data".to_string(), "/home".to_string()]);
    assert_eq!(run_unix::roots_to_watch(&vec![], "C:", "/d"), vec!["/d".to_string()]);
    assert!(run_unix::save_due(0, 5_000_000_000, 5));
    assert!(!run_unix::save_due(0, 4_999_999_999, 5));
    assert!(!run_unix::save_due(9, 0, 5));
}

// ---- paths in one tree --------------------------------------------------------------------

#[test]
fn paths_in_one_tree() {
    let buf = b"rootHome\0docs".to_vec();
    let dirs = vec![
        DirNode { name_offset: 0, name_len: 0, parent_idx: 0 },
        DirNode { name_offset: 4, name_len: 5, parent_idx: 0 },
        DirNode { name_offset: 9, name_len: 4, parent_idx: 1 },
    ];
    assert_eq!(unix_path::unix_dir_name(&buf, &dirs[1]).unwrap(), "Home");
    let file = PathEntry::File { name: Some("a.txt".to_string()), dir_idx: 2 };
    let p = unix_path::unix_entry_fs_path(Some("/"), &file, &dirs, &buf).unwrap();
    assert_eq!(p, "/Home/docs/a.txt");
    let dir = PathEntry::Dir { at: Some(2) };
    assert_eq!(unix_path::unix_entry_fs_path(Some("/"), &dir, &dirs, &buf).unwrap(), "/Home/docs");
    let moved = vec![
        DirNode { name_offset: 0, name_len: 0, parent_idx: 0 },
        DirNode { name_offset: 9, name_len: 4, parent_idx: 2 },
        DirNode { name_offset: 4, name_len: 5, parent_idx: 0 },
    ];
    let file = PathEntry::File { name: Some("a.txt".to_string()), dir_idx: 1 };
    assert_eq!(unix_path::unix_entry_fs_path(Some("/"), &file, &moved, &buf).unwrap(), "/Home/docs/a.txt");
    let ring = vec![
        DirNode { name_offset: 0, name_len: 0, parent_idx: 0 },
        DirNode { name_offset: 9, name_len: 4, parent_idx: 2 },
        DirNode { name_offset: 4, name_len: 5, parent_idx: 1 },
    ];
    assert!(unix_path::unix_entry_fs_path(Some("/"), &file, &ring, &buf).is_none());
    let cut = vec![DirNode { name_offset: 9, name_len: 4, parent_idx: 7 }];
    let file = PathEntry::File { name: Some("a.txt".to_string()), dir_idx: 0 };
    assert_eq!(unix_path::unix_entry_fs_path(Some("/"), &file, &cut, &buf).unwrap(), "/docs/a.txt");
    assert!(unix_path::unix_entry_fs_path(Some("/"), &PathEntry::Dir { at: Some(0) }, &cut, &buf).is_none());
    let bad = vec![0xFFu8, 0xFE];
    assert!(unix_path::unix_dir_name(&bad, &DirNode { name_offset: 0, name_len: 2, parent_idx: 0 }).is_none());
}
