use findx2::context_menu::{self, FindxPick, HitAction, HitMenu, MenuMessage, Scroll, Wheel};
use findx2::desktop::{self, DesktopSettings, LoadedFile, PersistedDesktopState, WindowMode};
use findx2::file_actions::{self, Deletion, DragNext, PageLoaded, RenamePlan};
use findx2::findx_settings::FindxGuiSettings;
use findx2::frontend_build::{self, FrontendPlan};
use findx2::gui_search;
use findx2::index_status::{self, IndexingProgressSnap, LocalFacts, PipeAnswer, ServiceStatus};
use findx2::indexing::{self, BuildRun, EnsureService, IndexBuildState, SpawnNext};
use findx2::ipc_dispatch::{IpcResponse, SearchHitDto};
use findx2::paths::PathStyle;
use findx2::tray::{self, IconAction, IconEvent, ParsedColors, ServiceToggle, Theme, TrayAction, TrayItem, TrayRefresh};
use findx2::win_preview::ChildWindow;
use findx2::window_layout::{self, CloseReply, DesktopRuntimeState, LayoutSource, ScreenRect, WindowAction};

const W: PathStyle = PathStyle::Windows;

fn v(list: &[&str]) -> Vec<String> {
    list.iter().map(|s| s.to_string()).collect()
}

// ---- the state of the index ---------------------------------------------------------------

fn local() -> LocalFacts {
    LocalFacts {
        windows: true,
        building: false,
        build_pending: false,
        index_path: "C:\\i.bin".to_string(),
        index_exists: true,
        progress_file: false,
    }
}

fn snap() -> IndexingProgressSnap {
    index_status::load_indexing_progress_snap(&Some(
        br#"{"phase":"scanning","volumes_total":3,"volumes_completed":1,"entries_indexed":500,"message":"m"}"#.to_vec(),
    ))
}

fn alive() -> ServiceStatus {
    ServiceStatus {
        entry_count: 10,
        healthy: true,
        metadata_ready: true,
        backfill_done: 0,
        backfill_total: 0,
        loading: false,
        loading_stage: None,
        loading_elapsed_secs: None,
    }
}

#[test]
fn progress_files_are_read() {
    let s = snap();
    assert_eq!(s.phase.as_deref(), Some("scanning"));
    assert_eq!((s.volumes_total, s.volumes_done, s.entries_indexed), (Some(3), Some(1), Some(500)));
    assert_eq!((s.current_volume, s.message.as_deref()), (None, Some("m")));
    let s = index_status::load_indexing_progress_snap(&Some(b"{\"phase\":7,\"volumes_total\":\"x\"".to_vec()));
    assert!(s.phase.is_none() && s.volumes_total.is_none());
    let s = index_status::load_indexing_progress_snap(&Some(b"{\"phase\":7,\"volumes_total\":-1}".to_vec()));
    assert!(s.phase.is_none() && s.volumes_total.is_none());
    assert!(index_status::load_indexing_progress_snap(&None).phase.is_none());
}

#[test]
fn a_live_service_overrides_leftovers() {
    let mut f = local();
    f.building = true;
    f.build_pending = true;
    f.progress_file = true;
    let o = index_status::fetch_index_status(&f, snap(), PipeAnswer::Status(alive()));
    assert!(!o.status.indexing && o.status.ready && o.status.last_error.is_none());
    assert!(o.clear_pending && o.remove_progress_file);
    assert_eq!((o.status.indexed_count, o.status.indexing_volumes_done), (10, None));
    assert!(index_status::status_bar(&o.status, 9).is_none());
}

#[test]
fn a_loading_service_is_not_ready() {
    let mut s = alive();
    s.loading = true;
    let o = index_status::fetch_index_status(&local(), snap(), PipeAnswer::Status(s));
    assert!(o.status.indexing && !o.status.ready && !o.clear_pending);
    assert_eq!(o.status.last_error.as_deref(), Some("索引加载中…（service 已启动，正在反序列化 index.bin）"));
    assert_eq!(o.status.indexing_volumes_done, Some(1));
    assert_eq!(index_status::status_bar(&o.status, 9).as_deref(), Some("索引: 加载中（已 9s）"));
    let mut s = alive();
    s.loading = true;
    s.loading_elapsed_secs = Some(42);
    let o = index_status::fetch_index_status(&local(), snap(), PipeAnswer::Status(s));
    assert_eq!(index_status::status_bar(&o.status, 9).as_deref(), Some("索引: 加载中（已 42s）"));
    let mut s = alive();
    s.loading = true;
    s.loading_stage = Some("解析条目（3/8 阶段，已 42s，共 3.1 亿条）".to_string());
    let o = index_status::fetch_index_status(&local(), snap(), PipeAnswer::Status(s));
    assert_eq!(
        index_status::status_bar(&o.status, 9).as_deref(),
        Some("索引: 加载中 · 解析条目（3/8 阶段，已 42s，共 3.1 亿条）")
    );
}

#[test]
fn a_progress_file_alone_is_no_build() {
    let mut f = local();
    f.progress_file = true;
    let o = index_status::fetch_index_status(&f, snap(), PipeAnswer::Failed("off".to_string()));
    assert!(!o.status.indexing && !o.remove_progress_file);
    assert_eq!(o.status.last_error.as_deref(), Some("off"));
    assert!(o.status.indexing_phase.is_none());
    f.build_pending = true;
    let o = index_status::fetch_index_status(&f, snap(), PipeAnswer::TimedOut);
    assert!(o.status.indexing);
    assert_eq!(o.status.indexing_phase.as_deref(), Some("scanning"));
    assert_eq!(
        o.status.last_error.as_deref(),
        Some("管道状态查询超时（建库时仍可看上方进度；若持续请检查服务是否已启动）")
    );
    let o = index_status::fetch_index_status(&f, snap(), PipeAnswer::Other);
    assert_eq!(o.status.last_error.as_deref(), Some("管道响应异常"));
}

#[test]
fn without_an_index_nobody_is_asked() {
    let mut f = local();
    f.index_exists = false;
    f.build_pending = true;
    let o = index_status::fetch_index_status(&f, snap(), PipeAnswer::Status(alive()));
    assert!(!o.status.indexing && !o.status.ready && o.status.indexing_phase.is_none());
    assert_eq!(
        o.status.last_error.as_deref(),
        Some("尚无索引 C:\\i.bin（首次启动会自动建索引；若以管理员启动仍失败请检查终端日志）")
    );
    f.windows = false;
    let o = index_status::fetch_index_status(&f, snap(), PipeAnswer::TimedOut);
    assert_eq!(o.status.last_error.as_deref(), Some("FindX2 GUI 当前需 Windows."));
}

#[test]
fn progress_files_of_build_directories() {
    assert_eq!(
        index_status::sibling_target_profile_dir(W, "C:\\t\\Debug"),
        Some("C:\\t\\release".to_string())
    );
    assert_eq!(
        index_status::sibling_target_profile_dir(W, "C:\\t\\release"),
        Some("C:\\t\\debug".to_string())
    );
    assert_eq!(index_status::sibling_target_profile_dir(W, "C:\\t\\app"), None);
    let (a, b) = index_status::indexing_json_paths(W, "C:\\t\\debug", &FindxGuiSettings::default());
    assert_eq!(a, "C:\\t\\debug\\index.indexing.json");
    assert_eq!(b.as_deref(), Some("C:\\t\\release\\index.indexing.json"));
    assert_eq!(index_status::resolve_indexing_json_path(a.clone(), false, b.clone(), true), b.clone().unwrap());
    assert_eq!(index_status::resolve_indexing_json_path(a.clone(), true, b.clone(), true), a);
    assert_eq!(index_status::resolve_indexing_json_path(a.clone(), false, b, false), a);
}

// ---- building the index -------------------------------------------------------------------

#[test]
fn build_arguments() {
    let mut s = FindxGuiSettings::default();
    s.first_index_full_metadata = true;
    s.drives = v(&["C:", " ", " D: "]);
    s.excluded_dirs = v(&[" C:\\tmp "]);
    assert_eq!(
        indexing::index_cli_args(&s, "i", "p", &None).join("|"),
        "index|--output|i|--volumes|C:,D:|--full-stat|--exclude-dir|C:\\tmp|--progress-file|p"
    );
    assert_eq!(
        indexing::index_cli_args(&s, "i", "p", &Some(" E: ".to_string())).join("|"),
        "index|--output|i|--volume|E:|--full-stat|--exclude-dir|C:\\tmp|--progress-file|p"
    );
    let mut s = FindxGuiSettings::default();
    s.first_index_full_metadata = false;
    assert_eq!(indexing::index_cli_args(&s, "i", "p", &Some(" ".into())).join("|"), "index|--output|i|--progress-file|p");
}

#[test]
fn builds_do_not_run_twice() {
    let mut st = IndexBuildState { running: false, pending_auto_start: true };
    assert_eq!(
        indexing::start_indexing_impl(&mut st, false, Ok(true)).unwrap_err(),
        "FindX2 GUI 建索引当前仅支持 Windows."
    );
    assert_eq!(indexing::start_indexing_impl(&mut st, true, Err("x".to_string())).unwrap_err(), "x");
    assert_eq!(st, IndexBuildState { running: false, pending_auto_start: true });
    assert_eq!(
        indexing::start_indexing_impl(&mut st, true, Ok(false)).unwrap_err(),
        "未找到 findx2.exe（请放在与 FindX2 GUI / findx2-service 相同目录）"
    );
    assert!(!st.pending_auto_start);
    st.pending_auto_start = true;
    assert!(indexing::start_indexing_impl(&mut st, true, Ok(true)).is_ok());
    assert_eq!(st, IndexBuildState { running: true, pending_auto_start: false });
    assert_eq!(indexing::start_indexing_impl(&mut st, true, Ok(true)).unwrap_err(), "已有建索引任务在运行");
    assert!(indexing::build_ended(&mut st, true) && !st.running);
    assert!(!indexing::build_ended(&mut st, false));
    assert_eq!(indexing::rebuild_index(true).unwrap_err(), "已有建索引任务在运行，无法重建");
    assert!(indexing::rebuild_index(false).is_ok());
    assert_eq!(indexing::exclude_sidecar("i.bin"), "i.bin.exclude.json");
}

#[test]
fn a_build_asks_for_rights_and_ends() {
    assert_eq!(indexing::first_run(true), BuildRun::Direct);
    assert_eq!(indexing::first_run(false), BuildRun::Elevated);
    assert_eq!(indexing::run_index_cli_blocking(BuildRun::Direct, None), BuildRun::Elevated);
    assert_eq!(indexing::run_index_cli_blocking(BuildRun::Direct, Some(Some(1))), BuildRun::Ended(false));
    assert_eq!(indexing::run_index_cli_blocking(BuildRun::Elevated, Some(Some(0))), BuildRun::Ended(true));
    assert_eq!(indexing::run_index_cli_blocking(BuildRun::Elevated, Some(None)), BuildRun::Ended(false));
    assert_eq!(indexing::run_index_cli_blocking(BuildRun::Elevated, None), BuildRun::Ended(false));
}

#[test]
fn the_service_follows_a_build() {
    assert_eq!(indexing::spawn_service_after_index_build(1, false, false), SpawnNext::Retry(200));
    assert_eq!(indexing::spawn_service_after_index_build(11, true, false), SpawnNext::Retry(300));
    assert_eq!(indexing::spawn_service_after_index_build(12, true, false), SpawnNext::GiveUp);
    assert_eq!(indexing::spawn_service_after_index_build(12, true, true), SpawnNext::WaitForService);
    assert_eq!(indexing::wait_for_service_pipe(299_999_999_999, 300).unwrap(), 200);
    assert!(indexing::wait_for_service_pipe(300_000_000_000, 300)
        .unwrap_err()
        .starts_with("等待 findx2-service 就绪超时（300 秒内命名管道仍未建立）。"));
    assert_eq!(indexing::ensure_service_running(false, true), EnsureService::BuildIndex);
    assert_eq!(indexing::ensure_service_running(true, true), EnsureService::Nothing);
    assert_eq!(indexing::ensure_service_running(true, false), EnsureService::StartService);
    assert_eq!(indexing::auto_start_flow(false, false, false), EnsureService::Nothing);
    assert_eq!(indexing::auto_start_flow(true, false, false), EnsureService::BuildIndex);
}

#[test]
fn run_modes_are_switched_by_the_service_program() {
    let mut s = FindxGuiSettings::default();
    assert_eq!(indexing::run_mode_service_exe(W, "C:\\a", &s), "C:\\a\\findx2-service.exe");
    s.service_exe_path = " D:\\s.exe ".to_string();
    assert_eq!(indexing::run_mode_service_exe(W, "C:\\a", &s), "D:\\s.exe");
    assert_eq!(indexing::work_dir(W, "D:\\s.exe", "C:\\a"), "D:\\");
    assert_eq!(indexing::apply_run_mode_change("service", "x", true).unwrap(), "install");
    assert_eq!(indexing::apply_run_mode_change("standalone", "x", true).unwrap(), "uninstall");
    assert_eq!(indexing::apply_run_mode_change("y", "x", true).unwrap_err(), "未知的运行模式: y");
    assert_eq!(
        indexing::apply_run_mode_change("service", "x", false).unwrap_err(),
        "找不到 findx2-service.exe（x），无法注册/卸载系统服务。"
    );
    assert_eq!(indexing::run_mode_failed("install", "e"), "提权执行 `findx2-service install` 失败: e");
}

// ---- searching ----------------------------------------------------------------------------

#[test]
fn searches_are_bounded() {
    let (q, n, p) = gui_search::search_files(" a b ", &Some("txt".to_string()), None, 5000, None, true);
    assert_eq!((q.as_str(), n, p), ("a b ext:txt", 5000, true));
    let (q, n, p) = gui_search::search_files("a", &Some(String::new()), Some(0), 5000, Some(false), true);
    assert_eq!((q.as_str(), n, p), ("a", 1, false));
    assert_eq!(gui_search::search_files("a", &None, Some(99_999), 1, None, true).1, 8192);
}

fn dto(name: &str) -> SearchHitDto {
    SearchHitDto {
        entry_idx: 1,
        name: name.to_string(),
        path: format!("C:\\{name}"),
        size: 3,
        mtime: 116_444_736_010_000_000,
        is_directory: false,
        name_highlight: vec![[0, 1]],
    }
}

#[test]
fn hits_are_shown_with_extension_and_seconds() {
    let r = gui_search::map_search_hit(W, dto("a.Txt"));
    assert_eq!((r.extension.as_str(), r.modified_unix, r.created_unix), ("Txt", 1, 0));
    assert_eq!((r.name.as_str(), r.path.as_str(), r.size), ("a.Txt", "C:\\a.Txt", 3));
    assert_eq!(gui_search::map_search_hit(W, dto("none")).extension, "");
    assert_eq!(gui_search::filetime_to_unix(0), 0);
    assert_eq!(gui_search::filetime_to_unix(u64::MAX), 1_833_029_933_770);
}

#[test]
fn replies_are_hits_or_errors() {
    let r = gui_search::hits_of_reply(IpcResponse::SearchResult { hits: vec![dto("a")], total: 9, elapsed_ms: 2 });
    let (hits, total, ms) = r.unwrap();
    assert_eq!((hits.len(), total, ms), (1, 9, 2));
    assert_eq!(
        gui_search::hits_of_reply(IpcResponse::Error { message: "x".into() }).unwrap_err(),
        "x"
    );
    assert_eq!(gui_search::hits_of_reply(IpcResponse::Pong).unwrap_err(), "管道响应异常");
    assert_eq!(gui_search::normalize_pipe(" ", "\\\\.\\pipe\\d"), "\\\\.\\pipe\\d");
    assert_eq!(gui_search::normalize_pipe(" x ", "d"), "\\\\.\\pipe\\x");
    assert!(gui_search::map_pipe_open_err(Some(2), "e").contains("端点不存在"));
    assert_eq!(gui_search::map_pipe_open_err(Some(5), "e"), "无法连接 findx2-service：拒绝访问。");
    assert_eq!(gui_search::map_pipe_open_err(None, "e"), "无法连接 findx2-service: e");
}

// ---- files --------------------------------------------------------------------------------

#[test]
fn items_are_renamed_in_place() {
    match file_actions::rename_path(W, "C:\\a\\old.txt", true, " new.txt ").unwrap() {
        RenamePlan::MoveTo(p) => assert_eq!(p, "C:\\a\\new.txt"),
        other => panic!("{other:?}"),
    }
    assert!(matches!(
        file_actions::rename_path(W, "C:\\a\\old.txt", true, "old.txt").unwrap(),
        RenamePlan::Unchanged(p) if p == "C:\\a\\old.txt"
    ));
    let err = |p: &str, there, n: &str| file_actions::rename_path(W, p, there, n).unwrap_err();
    assert_eq!(err("C:\\a", false, "b"), "File does not exist on disk.");
    assert_eq!(err("C:\\a", true, "  "), "Name cannot be empty.");
    assert_eq!(err("C:\\a", true, "x\\y"), "Name must not include path separators.");
    assert_eq!(err("C:\\a", true, "x/y"), "Name must not include path separators.");
    assert_eq!(err("C:\\", true, "b"), "Failed to resolve the parent directory.");
    assert_eq!(file_actions::finish_rename("n".into(), false, Ok(())).unwrap(), "n");
    assert_eq!(
        file_actions::finish_rename("n".into(), true, Ok(())).unwrap_err(),
        "An item with that name already exists."
    );
    assert_eq!(
        file_actions::finish_rename("n".into(), false, Err("e".into())).unwrap_err(),
        "Failed to rename item: e"
    );
}

#[test]
fn other_actions_on_items() {
    assert_eq!(file_actions::delete_path(true), Deletion::Directory);
    assert_eq!(file_actions::delete_path(false), Deletion::File);
    assert!(file_actions::open_file(true).is_ok());
    assert_eq!(file_actions::open_file(false).unwrap_err(), "File does not exist on disk.");
    assert!(file_actions::reveal_in_folder(false).is_err());
    assert_eq!(file_actions::open_path_in_console(W, "C:\\d", true, true).unwrap(), "C:\\d");
    assert_eq!(file_actions::open_path_in_console(W, "C:\\d\\f.txt", true, false).unwrap(), "C:\\d");
    assert_eq!(
        file_actions::open_path_in_console(W, "C:\\d", false, false).unwrap_err(),
        "Path does not exist on disk."
    );
    assert_eq!(
        file_actions::open_path_in_console(W, "C:\\", true, false).unwrap_err(),
        "Failed to resolve the parent folder for the requested path."
    );
    assert_eq!(
        file_actions::check_console_target(false).unwrap_err(),
        "Resolved console target is not a directory."
    );
    assert!(file_actions::start_native_file_drag(true, true).is_ok());
    assert_eq!(
        file_actions::start_native_file_drag(true, false).unwrap_err(),
        "Only files can be dragged out of FindX2."
    );
    assert_eq!(file_actions::query_continue_drag(true, true), DragNext::Cancel);
    assert_eq!(file_actions::query_continue_drag(false, false), DragNext::Drop);
    assert_eq!(file_actions::query_continue_drag(false, true), DragNext::GoOn);
}

#[test]
fn traces_of_the_first_version() {
    let m = file_actions::legacy_v1_markers(W, &Some("C:\\l".to_string()), "C:\\e");
    assert_eq!(
        m,
        v(&["C:\\l\\FindX\\settings.json", "C:\\l\\FindX\\engine_mem_stats.log", "C:\\e\\FindX.exe", "C:\\e\\FindX.Service.exe"])
    );
    assert_eq!(file_actions::legacy_v1_markers(W, &None, "C:\\e").len(), 2);
    assert!(file_actions::detect_legacy_v1_installation(&vec![false, true]));
    assert!(!file_actions::detect_legacy_v1_installation(&vec![]));
    assert_eq!(file_actions::on_page_load(true, true, false), PageLoaded::ShowAndFocus);
    assert_eq!(file_actions::on_page_load(true, true, true), PageLoaded::Show);
    assert_eq!(file_actions::on_page_load(true, false, false), PageLoaded::Nothing);
}

// ---- desktop settings ---------------------------------------------------------------------

fn ok(s: &str) -> Result<String, String> {
    Ok(s.to_string())
}

#[test]
fn shortcuts_are_normalized() {
    assert_eq!(desktop::normalize_shortcut(" alt+s ", &ok("Alt+KeyS")).unwrap(), "Alt+KeyS");
    assert_eq!(desktop::normalize_shortcut(" ", &ok("x")).unwrap_err(), "Shortcut cannot be empty.");
    assert_eq!(
        desktop::normalize_shortcut(" q ", &Err("bad".to_string())).unwrap_err(),
        "Invalid shortcut 'q': bad"
    );
    assert_eq!(
        desktop::normalize_shortcut("x", &ok("ALT+space")).unwrap_err(),
        "Alt+Space conflicts with the Windows system menu. Choose another shortcut."
    );
    assert_eq!(desktop::sanitized_shortcut_or_default("alt+SPACE", &ok("Alt+Space")), "Alt+Shift+S");
    assert_eq!(desktop::sanitized_shortcut_or_default("", &ok("x")), "Alt+Shift+S");
    assert_eq!(desktop::sanitized_shortcut_or_default("q", &Err("bad".into())), "Alt+Shift+S");
    assert_eq!(desktop::sanitized_shortcut_or_default("q", &ok("Alt+KeyQ")), "Alt+KeyQ");
}

#[test]
fn settings_of_the_first_version_are_replaced() {
    let s = DesktopSettings {
        background_mode_enabled: false,
        shortcut_enabled: false,
        shortcut: " alt+space ".to_string(),
        remember_window_bounds: false,
    };
    let r = desktop::sanitize_desktop_settings(&s, &ok("x"));
    assert!(r.background_mode_enabled && r.shortcut_enabled && r.remember_window_bounds);
    let mut kept = s.clone();
    kept.shortcut_enabled = true;
    let r = desktop::sanitize_desktop_settings(&kept, &ok("x"));
    assert!(!r.background_mode_enabled && !r.remember_window_bounds && r.shortcut == "Alt+Shift+S");
}

fn stored(version: u32) -> PersistedDesktopState {
    PersistedDesktopState {
        desktop_state_version: version,
        settings: DesktopSettings::default(),
        last_full_window_layout: Some(5),
        last_window_mode: Some(WindowMode::Quick),
    }
}

#[test]
fn stored_states_are_made_usable() {
    let r = desktop::load_desktop_state(&LoadedFile::State(stored(0), true), &ok("Alt+Shift+KeyS"));
    assert_eq!((r.desktop_state_version, r.last_full_window_layout), (1, None));
    assert_eq!(r.last_window_mode, Some(WindowMode::Quick));
    let r = desktop::load_desktop_state(&LoadedFile::State(stored(1), true), &ok("Alt+Shift+KeyS"));
    assert_eq!((r.last_full_window_layout, r.settings.shortcut.as_str()), (Some(5), "Alt+Shift+KeyS"));
    let r = desktop::load_desktop_state(&LoadedFile::State(stored(1), false), &ok("Alt+Shift+S"));
    assert_eq!(r.last_full_window_layout, None);
    let r = desktop::load_desktop_state(&LoadedFile::Settings(DesktopSettings::default()), &ok("Alt+Shift+S"));
    assert_eq!((r.desktop_state_version, r.last_window_mode), (1, None));
    let r = desktop::load_desktop_state(&LoadedFile::Nothing, &Err("x".into()));
    assert_eq!(r.settings.shortcut, "Alt+Shift+S");
    let again = desktop::sanitize_persisted_desktop_state(&stored(1), true, &ok("Alt+Shift+S"));
    assert_eq!((again.last_full_window_layout, again.settings.shortcut.as_str()), (Some(5), "Alt+Shift+S"));
    assert_eq!((WindowMode::Full.as_str(), WindowMode::Quick.as_str()), ("full", "quick"));
}

#[test]
fn shortcuts_are_registered_once() {
    let active = Some("alt+keys".to_string());
    let p = desktop::register_app_shortcut("Alt+KeyS", true, &active, true, true);
    assert_eq!((p.unregister, p.register, p.active), (None, None, active.clone()));
    let p = desktop::register_app_shortcut("Alt+KeyS", true, &active, false, false);
    assert_eq!((p.unregister, p.register.as_deref()), (None, Some("Alt+KeyS")));
    let p = desktop::register_app_shortcut("Alt+KeyQ", true, &active, true, false);
    assert_eq!((p.unregister, p.register.as_deref(), p.active.as_deref()), (active.clone(), Some("Alt+KeyQ"), Some("Alt+KeyQ")));
    let p = desktop::register_app_shortcut("Alt+KeyQ", false, &active, true, false);
    assert_eq!((p.unregister, p.register, p.active), (active, None, None));
}

#[test]
fn asked_settings_fall_back_to_defaults() {
    let s = desktop::update_desktop_settings(None, Some(false), None, "q", &ok("Alt+KeyQ")).unwrap();
    assert!(s.background_mode_enabled && !s.shortcut_enabled && s.remember_window_bounds);
    assert_eq!(s.shortcut, "Alt+KeyQ");
    assert!(desktop::update_desktop_settings(None, None, None, "", &ok("x")).is_err());
}

// ---- the main window ----------------------------------------------------------------------

fn rect(x: i32, y: i32, width: u32, height: u32) -> ScreenRect {
    ScreenRect { x, y, width, height }
}

#[test]
fn windows_off_the_screen_are_noticed() {
    let m = vec![rect(0, 0, 1920, 1080), rect(-1920, 0, 1920, 1080)];
    assert!(window_layout::window_visible_on_any_monitor(Some(rect(100, 100, 800, 600)), &m));
    assert!(window_layout::window_visible_on_any_monitor(Some(rect(-500, 100, 800, 600)), &m));
    assert!(window_layout::window_visible_on_any_monitor(Some(rect(1820, 980, 800, 600)), &m));
    assert!(!window_layout::window_visible_on_any_monitor(Some(rect(1821, 100, 800, 600)), &m));
    assert!(!window_layout::window_visible_on_any_monitor(Some(rect(5000, 0, 800, 600)), &m));
    assert!(!window_layout::window_visible_on_any_monitor(None, &m));
    assert!(!window_layout::window_visible_on_any_monitor(Some(rect(0, 0, 800, 600)), &vec![]));
}

#[test]
fn layouts_come_from_the_best_source() {
    let mut s = DesktopRuntimeState::new();
    assert_eq!(s.apply_main_window_layout(WindowMode::Full, None), LayoutSource::System);
    assert_eq!(
        s.apply_main_window_layout(WindowMode::Full, Some(WindowMode::Quick)),
        LayoutSource::Default(WindowMode::Full)
    );
    s.captured(4);
    assert_eq!(s.apply_main_window_layout(WindowMode::Full, None), LayoutSource::Saved(4));
    assert_eq!(s.apply_main_window_layout(WindowMode::Quick, None), LayoutSource::Default(WindowMode::Quick));
    s.settings.remember_window_bounds = false;
    assert_eq!(s.apply_main_window_layout(WindowMode::Full, None), LayoutSource::Default(WindowMode::Full));
    s.pending_full_restore = true;
    assert_eq!(s.apply_main_window_layout(WindowMode::Full, None), LayoutSource::Live(4));
    assert!(s.pending_full_restore);
    s.live_layout_restored();
    assert!(!s.pending_full_restore);
    assert!(window_layout::keep_system_bounds(true, true, Some(WindowMode::Full), true));
    assert!(!window_layout::keep_system_bounds(true, true, None, true));
    assert!(!window_layout::keep_system_bounds(true, false, None, false));
}

#[test]
fn the_small_window_keeps_the_workspace() {
    let mut s = DesktopRuntimeState::new();
    s.captured(1);
    let a = s.show_window_in_mode(WindowMode::Quick, true, false);
    assert_eq!(
        a,
        vec![
            WindowAction::CaptureLayout,
            WindowAction::CaptureLayout,
            WindowAction::SaveBounds,
            WindowAction::PersistState(WindowMode::Full),
            WindowAction::Hide,
            WindowAction::EmitMode(WindowMode::Quick),
            WindowAction::ApplyLayout(WindowMode::Quick),
            WindowAction::NotOnTop,
            WindowAction::Show,
            WindowAction::Focus,
        ]
    );
    s.sync_window_state_save_behavior();
    assert!(!s.save_enabled && s.pending_full_restore);
    let hidden = s.hide_main_window();
    assert_eq!(
        hidden,
        vec![WindowAction::UnloadPreview, WindowAction::PersistState(WindowMode::Quick), WindowAction::Hide, WindowAction::TrimMemory]
    );
    let a = s.show_window_in_mode(WindowMode::Full, false, true);
    assert_eq!(
        a,
        vec![
            WindowAction::Unminimize,
            WindowAction::EmitMode(WindowMode::Full),
            WindowAction::ApplyLayout(WindowMode::Full),
            WindowAction::NotOnTop,
            WindowAction::Show,
            WindowAction::ApplyLayout(WindowMode::Full),
            WindowAction::Focus,
        ]
    );
    assert_eq!(s.apply_main_window_layout(WindowMode::Full, None), LayoutSource::Live(1));
    s.sync_window_state_save_behavior();
    assert!(s.save_enabled);
}

#[test]
fn the_window_is_toggled() {
    let mut s = DesktopRuntimeState::new();
    let a = s.toggle_main_window(true, false);
    assert_eq!(a[0], WindowAction::UnloadPreview);
    assert!(a.contains(&WindowAction::SaveBounds) && a.contains(&WindowAction::Hide));
    assert_eq!(
        s.toggle_main_window(true, true),
        vec![
            WindowAction::ApplyLayout(WindowMode::Full),
            WindowAction::Unminimize,
            WindowAction::NotOnTop,
            WindowAction::Show,
            WindowAction::Focus,
        ]
    );
    assert_eq!(
        s.reset_window_layout(),
        vec![
            WindowAction::ApplyDefault(WindowMode::Full),
            WindowAction::CaptureLayout,
            WindowAction::SaveBounds,
            WindowAction::PersistState(WindowMode::Full),
        ]
    );
    let p = s.persist_desktop_state(WindowMode::Full);
    assert_eq!((p.desktop_state_version, p.last_window_mode), (1, Some(WindowMode::Full)));
}

#[test]
fn closing_hides_until_the_program_ends() {
    let mut s = DesktopRuntimeState::new();
    assert!(matches!(s.handle_window_event("settings"), CloseReply::HideSettings));
    assert!(matches!(s.handle_window_event("other"), CloseReply::Ignore));
    assert!(matches!(s.handle_window_event("main"), CloseReply::HideMain(_)));
    s.quit_background_app();
    assert!(s.quitting);
    assert!(matches!(s.handle_window_event("main"), CloseReply::Close(a) if a[0] == WindowAction::UnloadPreview));
    let mut s = DesktopRuntimeState::new();
    s.settings.background_mode_enabled = false;
    assert!(matches!(s.handle_window_event("main"), CloseReply::Close(_)));
    assert!(window_layout::build_pending_at_start(true, false));
    assert!(!window_layout::build_pending_at_start(true, true));
}

#[test]
fn the_window_starts_with_what_was_stored() {
    let mut s = DesktopRuntimeState::new();
    let mut p = stored(1);
    p.settings.remember_window_bounds = false;
    let a = s.setup(p, Ok("Alt+KeyS".to_string()));
    assert_eq!(
        a,
        vec![
            WindowAction::ApplyLayout(WindowMode::Full),
            WindowAction::Show,
            WindowAction::Focus,
            WindowAction::CaptureLayout,
            WindowAction::PersistState(WindowMode::Full),
            WindowAction::EmitMode(WindowMode::Full),
        ]
    );
    assert_eq!((s.layout, s.save_enabled, s.settings.shortcut.as_str()), (Some(5), false, "Alt+KeyS"));
    s.setup(stored(1), Err("taken".to_string()));
    assert_eq!((s.settings.shortcut.as_str(), s.save_enabled), ("Alt+Shift+S", true));
}

// ---- tray and colours ---------------------------------------------------------------------

#[test]
fn the_tray_menu_acts() {
    let m = tray::build_tray_menu(true);
    assert_eq!(m.len(), 8);
    for item in &m {
        if let TrayItem::Entry(id, _) = item {
            assert!(tray::on_menu_event(id) != TrayAction::Nothing);
        }
    }
    assert!(matches!(m[3], TrayItem::Entry("findx-service-toggle", "停止索引服务")));
    assert!(matches!(tray::build_tray_menu(false)[3], TrayItem::Entry(_, "启动索引服务")));
    assert_eq!(tray::on_menu_event("x"), TrayAction::Nothing);
    assert_eq!(tray::on_service_toggle(true, true), ServiceToggle::Stop);
    assert_eq!(tray::on_service_toggle(true, false), ServiceToggle::Start);
    assert_eq!(tray::on_service_toggle(false, true), ServiceToggle::Start);
}

#[test]
fn the_tray_menu_is_refreshed_now_and_then() {
    let mut t = TrayRefresh::new();
    assert_eq!(t.on_tray_icon_event(IconEvent::PointerEnters, 1_000), IconAction::RefreshMenu);
    assert_eq!(t.on_tray_icon_event(IconEvent::PointerEnters, 300_000_000), IconAction::Nothing);
    assert_eq!(t.on_tray_icon_event(IconEvent::LeftButtonUp, 300_000_000), IconAction::ToggleWindow);
    assert!(t.tray_menu_enter_refresh_should_run(400_001_000));
    assert!(!t.tray_menu_enter_refresh_should_run(400_001_000));
}

#[test]
fn themes_and_colours() {
    assert_eq!(tray::css_colorref((1, 2, 3)), 0x030201);
    let c = |b: Result<(u8, u8, u8), String>| ParsedColors { background: b, caption: Some((255, 0, 0)), text: None };
    let t = tray::apply_native_window_theme(" Dark ", &Some(" #fff ".into()), &c(Ok((9, 9, 9)))).unwrap();
    assert_eq!((t.theme, t.background, t.caption, t.text), (Theme::Dark, Some((9, 9, 9)), Some(255), None));
    let t = tray::apply_native_window_theme("light", &Some(" ".into()), &c(Err("x".into()))).unwrap();
    assert_eq!((t.theme, t.background), (Theme::Light, None));
    assert_eq!(
        tray::apply_native_window_theme("light", &Some(" q ".into()), &c(Err("x".into()))).unwrap_err(),
        "Invalid background color 'q': x"
    );
    assert_eq!(
        tray::apply_native_window_theme("Blue", &None, &c(Ok((0, 0, 0)))).unwrap_err(),
        "Unsupported theme mode 'blue'."
    );
    assert_eq!(tray::resolved_theme_mode(&None, &None), "dark");
    assert_eq!(tray::resolved_theme_mode(&None, &Some("light".into())), "light");
}

// ---- the menu of a hit --------------------------------------------------------------------

#[test]
fn the_wheel_scrolls_menus() {
    let mut w = Wheel::new();
    assert_eq!(w.scroll_popup_menu(60), Scroll::Nothing);
    assert_eq!(w.scroll_popup_menu(70), Scroll::Up(3));
    assert_eq!(w.rest, 10);
    assert_eq!(w.scroll_popup_menu(-250), Scroll::Down(6));
    assert_eq!(w.rest, 0);
    assert_eq!(context_menu::wheel_delta(0x0078_0000), 120);
    assert_eq!(context_menu::wheel_delta(0xFFFF_FFFF_FF88_0000), -120);
    assert!(context_menu::menu_msg_filter(2, true, 0x20A));
    assert!(!context_menu::menu_msg_filter(2, true, 0x200));
}

#[test]
fn menus_fit_the_screen() {
    assert_eq!(context_menu::work_area_max_menu_height(Some((0, 1040))), 1016);
    assert_eq!(context_menu::work_area_max_menu_height(Some((0, 100))), 240);
    assert_eq!(context_menu::work_area_max_menu_height(None), 720);
    assert_eq!(context_menu::track_popup_anchor_screen(Some((1, 2)), 3, 4), (1, 2));
    assert_eq!(context_menu::track_popup_anchor_screen(None, 3, 4), (3, 4));
    let win = |handle, class: &str| ChildWindow { handle, class: class.to_string() };
    assert_eq!(context_menu::find_popup_menu_hwnd(&Some(win(7, "#32768")), &vec![]), Some(7));
    assert_eq!(
        context_menu::find_popup_menu_hwnd(&Some(win(7, "x")), &vec![win(1, "y"), win(2, "#32768")]),
        Some(2)
    );
    assert_eq!(context_menu::find_popup_menu_hwnd(&None, &vec![win(1, "y")]), None);
    assert_eq!(context_menu::shell_menu_message(0x2C, true, true), MenuMessage::Newest);
    assert_eq!(context_menu::shell_menu_message(0x2C, false, true), MenuMessage::Older);
    assert_eq!(context_menu::shell_menu_message(0x111, true, true), MenuMessage::Window);
}

#[test]
fn the_menu_of_a_hit() {
    assert!(matches!(context_menu::run_composite_hit_menu(false, true), HitMenu::Refused(e) if e == "所选路径在磁盘上不存在。"));
    assert!(matches!(context_menu::run_composite_hit_menu(true, true), HitMenu::ShellExtended));
    assert!(matches!(context_menu::run_composite_hit_menu(true, false), HitMenu::OwnMenu));
    assert_eq!(context_menu::findx_menu().len(), 8);
    let picks: Vec<FindxPick> = (0..8).map(context_menu::show_findx_menu).collect();
    assert_eq!(
        picks,
        vec![
            FindxPick::Nothing,
            FindxPick::Open,
            FindxPick::OpenParent,
            FindxPick::CopyPath,
            FindxPick::CopyName,
            FindxPick::Delete,
            FindxPick::More,
            FindxPick::Nothing,
        ]
    );
    assert!(matches!(context_menu::on_pick(FindxPick::CopyName, "C:\\a\\b.txt"), HitAction::Copy(s) if s == "b.txt"));
    assert!(matches!(context_menu::on_pick(FindxPick::CopyName, "C:\\"), HitAction::Copy(s) if s == "C:\\"));
    assert!(matches!(context_menu::on_pick(FindxPick::CopyPath, "C:\\a"), HitAction::Copy(s) if s == "C:\\a"));
    assert!(matches!(context_menu::on_pick(FindxPick::Delete, "x"), HitAction::Recycle));
}

#[test]
fn system_commands_and_the_recycle_bin() {
    assert_eq!(context_menu::show_shell_menu(0), Ok(None));
    assert_eq!(context_menu::show_shell_menu(0xFFF), Ok(None));
    assert_eq!(context_menu::show_shell_menu(0x1005), Ok(Some(5)));
    assert_eq!(context_menu::show_shell_menu(0x11000), Err("无效的系统菜单命令。".to_string()));
    assert_eq!(context_menu::recycle_list("a"), vec![0x61, 0, 0]);
    assert!(context_menu::recycle_path(0, false).is_ok());
    assert!(context_menu::recycle_path(5, true).is_ok());
    assert_eq!(
        context_menu::recycle_path(-3, false).unwrap_err(),
        "移至回收站失败（SHFileOperationW 返回 -3）。请确认路径存在且未被占用。"
    );
}

// ---- the pages ----------------------------------------------------------------------------

#[test]
fn pages_are_built_when_out_of_date() {
    assert_eq!(frontend_build::watched_files()[0], "package.json");
    assert!(frontend_build::frontend_out_of_date(None, &vec![], &vec![]));
    assert!(!frontend_build::frontend_out_of_date(Some(10), &vec![Some(10), None], &vec![Some(3)]));
    assert!(frontend_build::frontend_out_of_date(Some(10), &vec![Some(11)], &vec![]));
    assert!(frontend_build::frontend_out_of_date(Some(10), &vec![], &vec![Some(11)]));
    assert_eq!(frontend_build::maybe_build_gui_frontend(&None, true, true), FrontendPlan::Build);
    assert_eq!(frontend_build::maybe_build_gui_frontend(&None, true, false), FrontendPlan::Skip);
    assert_eq!(frontend_build::maybe_build_gui_frontend(&Some("1".into()), true, true), FrontendPlan::Skip);
    assert_eq!(
        frontend_build::maybe_build_gui_frontend(&Some("1".into()), false, true),
        FrontendPlan::SkipWithWarning
    );
    assert_eq!(frontend_build::maybe_build_gui_frontend(&Some("0".into()), false, true), FrontendPlan::Build);
    assert_eq!(frontend_build::npm_cmd(true), "npm.cmd");
}

#[test]
fn the_window_comes_up_and_is_remembered() {
    let mut s = DesktopRuntimeState::new();
    s.window_mode = WindowMode::Quick;
    assert_eq!(
        s.show_main_window(true),
        vec![
            WindowAction::ApplyLayout(WindowMode::Quick),
            WindowAction::Unminimize,
            WindowAction::NotOnTop,
            WindowAction::Show,
            WindowAction::Focus
        ]
    );
    s.settings.remember_window_bounds = true;
    assert_eq!(s.persist_full_window_state_snapshot(), vec![WindowAction::PersistState(WindowMode::Quick)]);
    assert!(!s.save_enabled);
    s.window_mode = WindowMode::Full;
    assert_eq!(
        s.persist_full_window_state_snapshot(),
        vec![WindowAction::CaptureLayout, WindowAction::SaveBounds, WindowAction::PersistState(WindowMode::Full)]
    );
    assert!(s.save_enabled);
}

#[test]
fn new_settings_decide_what_is_saved() {
    let mut s = DesktopRuntimeState::new();
    let asked = desktop::update_desktop_settings(None, None, Some(false), "q", &ok("Alt+KeyQ")).unwrap();
    assert_eq!(s.apply_desktop_settings(asked), vec![WindowAction::PersistState(WindowMode::Full)]);
    assert!(!s.save_enabled);
    assert_eq!(
        s.reset_window_layout(),
        vec![WindowAction::ApplyDefault(WindowMode::Full), WindowAction::CaptureLayout, WindowAction::PersistState(WindowMode::Full)]
    );
    assert!(!s.save_enabled);
    let asked = desktop::update_desktop_settings(None, None, None, "q", &ok("Alt+KeyQ")).unwrap();
    assert_eq!(
        s.apply_desktop_settings(asked),
        vec![WindowAction::CaptureLayout, WindowAction::SaveBounds, WindowAction::PersistState(WindowMode::Full)]
    );
    assert!(s.save_enabled);
    s.window_mode = WindowMode::Quick;
    assert_eq!(s.reset_window_layout(), vec![WindowAction::PersistState(WindowMode::Quick)]);
    assert_eq!(s.settings.shortcut, "Alt+KeyQ");
}
