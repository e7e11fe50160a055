use findx2::app_update::{self, GhAsset, GhRelease, ReleaseAnswer};
use findx2::autostart::{self, Registry, RunChange};
use findx2::findx_settings::{self, FindxGuiSettings, RunMode};
use findx2::paths::PathStyle;
use findx2::service_start::{self, AfterSpawnFailure, SpawnPlan, StartNext, StartStep, StepResult, ToolResult};
use findx2::update_download::{self, Download, DownloadFailure};

const W: PathStyle = PathStyle::Windows;

fn settings() -> FindxGuiSettings {
    FindxGuiSettings::default()
}

fn v(list: &[&str]) -> Vec<String> {
    list.iter().map(|s| s.to_string()).collect()
}

// ---- settings -----------------------------------------------------------------------------

#[test]
fn the_index_path_is_relative_to_the_program() {
    let mut s = settings();
    assert_eq!(findx_settings::resolve_index_path(W, "C:\\app", &s), "C:\\app\\index.bin");
    s.index_path = " D:\\i.bin ".to_string();
    assert_eq!(findx_settings::resolve_index_path(W, "C:\\app", &s), "D:\\i.bin");
    s.index_path = "sub\\i.bin".to_string();
    assert_eq!(findx_settings::resolve_index_path(W, "C:\\app", &s), "C:\\app\\sub\\i.bin");
}

#[test]
fn installed_settings_move_once() {
    let pd = Some("C:\\ProgramData".to_string());
    assert!(findx_settings::settings_for_nsis_installed_layout(false, &pd).is_none());
    assert!(findx_settings::settings_for_nsis_installed_layout(true, &None).is_none());
    let installed = || findx_settings::settings_for_nsis_installed_layout(true, &pd);
    assert_eq!(installed().unwrap().index_path, "C:\\ProgramData\\FindX\\index.bin");
    let (moved, changed) = findx_settings::migrate_installed_layout_settings(settings(), "C:\\app", installed());
    assert!(changed);
    assert_eq!(moved.index_path, "C:\\ProgramData\\FindX\\index.bin");
    assert!(matches!(moved.run_mode, RunMode::Service));
    let (again, changed) = findx_settings::migrate_installed_layout_settings(moved, "C:\\app", installed());
    assert!(!changed);
    assert_eq!(again.index_path, "C:\\ProgramData\\FindX\\index.bin");
    let mut own = settings();
    own.index_path = "E:\\mine.bin".to_string();
    let (own, changed) = findx_settings::migrate_installed_layout_settings(own, "C:\\app", installed());
    assert!(!changed && own.index_path == "E:\\mine.bin");
}

#[test]
fn settings_are_loaded_from_file_or_installer() {
    let pd = Some("C:\\ProgramData".to_string());
    let installed = findx_settings::settings_for_nsis_installed_layout(true, &pd);
    let (s, save) = findx_settings::load_findx_settings(true, "C:\\app", None, installed).unwrap();
    assert_eq!((s.index_path.as_str(), save), ("C:\\ProgramData\\FindX\\index.bin", false));
    let (s, _) = findx_settings::load_findx_settings(true, "C:\\app", None, None).unwrap();
    assert_eq!(s.index_path, "index.bin");
    let e = findx_settings::load_findx_settings(true, "C:\\app", Some(Err("bad".into())), None).unwrap_err();
    assert_eq!(e, "bad");
    let installed = findx_settings::settings_for_nsis_installed_layout(true, &pd);
    let (_, save) = findx_settings::load_findx_settings(true, "C:\\app", Some(Ok(settings())), installed).unwrap();
    assert!(save);
    let (_, save) = findx_settings::load_findx_settings(false, "/app", Some(Ok(settings())), None).unwrap();
    assert!(!save);
}

#[test]
fn programs_are_found_where_they_exist() {
    let here = v(&["C:\\app\\resources\\bin\\findx2-service.exe"]);
    assert_eq!(
        findx_settings::service_exe_search_paths(W, "C:\\app"),
        v(&["C:\\app\\findx2-service.exe", "C:\\app\\resources\\bin\\findx2-service.exe"])
    );
    assert_eq!(findx_settings::resolve_service_exe(W, "C:\\app", &settings(), &here).unwrap(), here[0]);
    assert!(findx_settings::resolve_service_exe(W, "C:\\app", &settings(), &vec![]).is_err());
    let mut s = settings();
    s.service_exe_path = "D:\\svc.exe".to_string();
    assert!(findx_settings::resolve_service_exe(W, "C:\\app", &s, &here).unwrap_err().starts_with("设置中的服务路径不存在: D:\\svc.exe"));
    let present = v(&["D:\\svc.exe", "D:\\fx.exe"]);
    assert_eq!(findx_settings::resolve_service_exe(W, "C:\\app", &s, &present).unwrap(), "D:\\svc.exe");
    assert_eq!(findx_settings::resolve_cli_exe(W, "C:\\app", &s, &present).unwrap(), "D:\\fx.exe");
    assert_eq!(findx_settings::resolve_cli_exe(W, "C:\\app", &s, &vec![]), None);
    assert_eq!(
        findx_settings::cli_name_paths(PathStyle::Unix, "/app", "fx"),
        v(&["/app/fx", "/app/resources/bin/fx"])
    );
}

// ---- starting the service -----------------------------------------------------------------

#[test]
fn a_directory_is_added_to_the_path_once() {
    assert!(service_start::path_contains_dir("C:\\x; c:\\App\\ ;", "C:\\app"));
    assert!(!service_start::path_contains_dir("C:\\x", "C:\\app"));
    let p = service_start::extended_path("C:\\x;", "C:\\app").unwrap();
    assert!(service_start::path_contains_dir(&p, "C:\\app"));
    assert!(service_start::extended_path(&p, "C:\\app").is_none());
}

#[test]
fn service_arguments() {
    let mut s = settings();
    s.enable_everything_ipc = false;
    s.enable_metadata_backfill = false;
    s.save_interval_secs = 0;
    s.excluded_dirs = v(&[" C:\\t ", ""]);
    assert_eq!(
        service_start::spawn_args(&s, "i", "C:", "p").join(" "),
        "--index i --volume C: --pipe p --save-interval-secs 1 --no-everything-ipc --no-backfill --exclude-dir C:\\t"
    );
    assert_eq!(
        service_start::spawn_params(&settings(), "a b", "C:", "p").split(" --").next().unwrap(),
        "--index \"a b\""
    );
    assert!(service_start::install_args_for_settings(&settings(), "i", "C:", "p").contains("install"));
    assert!(service_start::install_args_list(&settings(), "i", "C:", "p").contains(&"install".to_string()));
    assert_eq!(
        service_start::tree_spawn_args(&settings(), "i", "/", "p")[..6],
        ["--index", "i", "--volume", "/", "--pipe", "p"]
    );
    assert_eq!(service_start::pipe_of(&settings()), "findx2");
    assert_eq!(service_start::volume_of(&settings()), "C:");
}

#[test]
fn the_run_mode_decides_how_to_start() {
    let mut s = settings();
    assert!(matches!(
        service_start::spawn_findx_service_process(&s, "i", false, true),
        SpawnPlan::Refused(e) if e == "索引文件不存在: i"
    ));
    s.run_mode = RunMode::Service;
    assert!(matches!(service_start::spawn_findx_service_process(&s, "i", true, true), SpawnPlan::Manager { .. }));
    s.run_mode = RunMode::Standalone;
    match service_start::spawn_findx_service_process(&s, "i", true, true) {
        SpawnPlan::Program { pipe, args, .. } => {
            assert_eq!(pipe, "findx2");
            assert_eq!(args[1], "i");
        },
        _ => panic!("a program of its own"),
    }
    s.run_mode = RunMode::Service;
    match service_start::spawn_findx_service_process(&s, "i", true, false) {
        SpawnPlan::Program { volume, pipe, args } => {
            assert_eq!(args, service_start::tree_spawn_args(&s, "i", &volume, &pipe));
            assert!(!args.contains(&"--save-interval-secs".to_string()));
        },
        _ => panic!("a program of its own"),
    }
    assert!(matches!(
        service_start::after_spawn_failure("e", false, true),
        AfterSpawnFailure::Failed(t) if t == "启动 findx2-service 失败: e"
    ));
    assert!(matches!(service_start::after_spawn_failure("e", true, false), AfterSpawnFailure::AskForRights));
    assert!(matches!(
        service_start::after_spawn_failure("e", true, true),
        AfterSpawnFailure::Failed(t) if t.starts_with("直接启动 findx2-service 失败: e。")
    ));
    assert_eq!(service_start::both_failed("a", "b"), "直接启动失败: a；提权启动失败: b");
}

#[test]
fn the_service_manager_is_asked() {
    let ended = |code, output: &str| ToolResult::Ended { code, output: output.to_string() };
    assert!(service_start::windows_service_is_running(&ended(0, "STATE : 4 RUNNING")));
    assert!(!service_start::windows_service_is_running(&ended(0, "STOPPED")));
    assert!(!service_start::windows_service_is_running(&ToolResult::NotRun("x".into())));
    assert!(service_start::try_start_windows_service(&ended(0, ""), &ended(0, "")).is_ok());
    assert!(service_start::try_start_windows_service(&ended(1056, ""), &ended(0, "")).is_ok());
    assert_eq!(
        service_start::try_start_windows_service(&ended(5, " denied "), &ended(1, "")).unwrap_err(),
        "sc start FindX2Search 失败 (5): denied"
    );
    assert!(service_start::try_start_windows_service(&ended(5, "x"), &ended(0, "RUNNING")).is_ok());
}

#[test]
fn starting_by_the_manager_comes_to_an_end() {
    let failed = StepResult::Failed("e".to_string());
    assert!(matches!(service_start::start_service_mode_process(StartStep::Start, &StepResult::Done, true), StartNext::Started));
    assert!(matches!(service_start::start_service_mode_process(StartStep::Start, &failed, true), StartNext::Step(StartStep::Register)));
    assert!(matches!(
        service_start::start_service_mode_process(StartStep::Start, &failed, false),
        StartNext::Step(StartStep::RegisterElevated)
    ));
    assert!(matches!(
        service_start::start_service_mode_process(StartStep::Register, &StepResult::BadExit(Some(3)), true),
        StartNext::Failed(t) if t == "注册系统服务失败（退出码 3）。"
    ));
    for elevated in [true, false] {
        let mut step = StartStep::Start;
        let mut n = 0;
        loop {
            n += 1;
            assert!(n < 8);
            match service_start::start_service_mode_process(step, &failed, elevated) {
                StartNext::Step(s) => step = s,
                _ => break,
            }
        }
    }
}

// ---- updates ------------------------------------------------------------------------------

#[test]
fn versions_of_tags() {
    assert_eq!(app_update::version_from_release_tag("v2.4.5"), Some("2.4.5".to_string()));
    assert_eq!(app_update::version_from_release_tag(" V1.0.0 "), Some("1.0.0".to_string()));
    assert_eq!(app_update::version_from_release_tag("none"), None);
    assert_eq!(app_update::is_newer("2.10.0", "2.9.9"), Some(true));
    assert_eq!(app_update::is_newer("2.9.9", "2.9.9"), Some(false));
    assert_eq!(app_update::is_newer("1.0.0-rc.1", "1.0.0"), Some(false));
    assert_eq!(app_update::is_newer("x", "1.0.0"), None);
}

fn asset(name: &str) -> GhAsset {
    GhAsset { name: name.to_string(), browser_download_url: format!("https://h/{name}"), size: 9 }
}

fn release(tag: &str) -> GhRelease {
    GhRelease {
        tag_name: tag.to_string(),
        html_url: "https://h/r".to_string(),
        published_at: Some("d".to_string()),
        body: Some("  notes ".to_string()),
        assets: vec![asset("a.zip"), asset("FindX-2-Setup.exe"), asset("findx-3-setup.exe")],
    }
}

fn answer(tag: &str) -> ReleaseAnswer {
    ReleaseAnswer::Answer { status: 200, body: Ok("{}".into()), release: Ok(release(tag)) }
}

#[test]
fn an_update_is_offered_with_its_installer() {
    let i = app_update::check_app_update("2.4.5", answer("v2.5.0"), true);
    assert!(i.ok && i.has_update && i.error.is_none());
    assert_eq!(i.latest_version.as_deref(), Some("v2.5.0"));
    assert_eq!(i.download_url.as_deref(), Some("https://h/FindX-2-Setup.exe"));
    assert_eq!((i.asset_size, i.release_notes.as_deref()), (Some(9), Some("notes")));
    let i = app_update::check_app_update("2.4.5", answer("v2.4.5"), true);
    assert!(i.ok && !i.has_update);
    let i = app_update::check_app_update("2.4.5", answer("v9.0.0"), false);
    assert!(i.has_update && i.download_url.is_none());
}

#[test]
fn releases_are_described() {
    let i = app_update::describe_release("1.0.0", release("v2.0.0"), &Some("2.0.0".to_string()), true, true);
    assert!(i.ok && i.has_update && i.error.is_none());
    assert_eq!(i.download_url.as_deref(), Some("https://h/FindX-2-Setup.exe"));
    let i = app_update::describe_release("1.0.0", release("odd"), &None, true, true);
    assert!(i.ok && !i.has_update && i.download_url.is_none());
    assert_eq!(i.error.as_deref(), Some("最新发行标签「odd」无法解析为语义化版本，请手动对照"));
    assert_eq!((i.latest_version.as_deref(), i.release_notes.as_deref()), (Some("odd"), Some("notes")));
    let i = app_update::describe_answer("1.0.0", answer("v2.0.0"), &Some("2.0.0".to_string()), false, true);
    assert!(i.ok && !i.has_update && i.asset_size.is_none());
    assert_eq!((i.release_page_url.as_deref(), i.published_at.as_deref()), (Some("https://h/r"), Some("d")));
}

#[test]
fn failed_checks_say_why() {
    let i = app_update::check_app_update("1.0.0", ReleaseAnswer::NoAnswer("off".into()), true);
    assert_eq!((i.ok, i.error.as_deref()), (false, Some("请求 GitHub 失败：off")));
    let bad = |status, body: Result<String, String>, r| ReleaseAnswer::Answer { status, body, release: r };
    let i = app_update::check_app_update("1.0.0", bad(500, Ok("oops".into()), Err("x".into())), true);
    assert!(!i.ok && i.error.unwrap().starts_with("GitHub API 返回 HTTP 500"));
    let i = app_update::check_app_update("1.0.0", bad(200, Ok("{".into()), Err("eof".into())), true);
    assert_eq!(i.error.as_deref(), Some("解析 GitHub 响应失败：eof"));
    let i = app_update::check_app_update("1.0.0", bad(200, Err("cut".into()), Err("x".into())), true);
    assert_eq!(i.error.as_deref(), Some("读取响应失败：cut"));
    let i = app_update::check_app_update("1.0.0", answer("nightly"), true);
    assert!(i.error.unwrap().contains("nightly"));
    assert_eq!(app_update::release_url(), "https://api.github.com/repos/chaojimct/findx/releases/latest");
}

#[test]
fn notes_are_cut() {
    assert_eq!(app_update::truncate_notes(&None), None);
    assert_eq!(app_update::truncate_notes(&Some("  ".into())), None);
    let long = "中".repeat(700);
    let cut = app_update::truncate_notes(&Some(long)).unwrap();
    assert_eq!(cut.chars().count(), 601);
    assert!(cut.ends_with('…'));
    assert_eq!(app_update::pick_windows_setup_asset(&vec![asset("a.zip")], true), None);
    assert_eq!(app_update::pick_windows_setup_asset(&release("v1").assets, false), None);
}

#[test]
fn downloads_are_checked() {
    let (url, _) = update_download::download_app_update(" https://h/FindX-2-Setup.exe ", false).unwrap();
    assert_eq!(url, "https://h/FindX-2-Setup.exe");
    assert_eq!(update_download::download_app_update("http://h/x", false).unwrap_err(), "下载地址不是 https 链接，已拒绝。");
    assert_eq!(update_download::download_app_update("https://h/x", true).unwrap_err(), "已有下载任务在进行中。");
    assert_eq!(
        update_download::run_download(200, Some("100"), Some(100), 7).unwrap(),
        Download { total: 100, downloaded: 0, last_report: 7 }
    );
    assert_eq!(update_download::run_download(404, Some("100"), None, 0).unwrap_err(), "下载返回 HTTP 404");
    assert_eq!(
        update_download::run_download(200, None, None, 0).unwrap_err(),
        "响应缺少 Content-Length，无法校验完整性，已中止。"
    );
    assert_eq!(
        update_download::run_download(200, Some("100"), Some(90), 0).unwrap_err(),
        "安装包大小与发行信息不一致（元数据 90 B，实际 100 B），已中止。"
    );
}

#[test]
fn a_download_is_complete_or_dropped() {
    let mut d = update_download::run_download(200, Some(" 100 "), None, 0).unwrap();
    assert!(!d.on_chunk(40, 1));
    assert!(d.on_chunk(30, 300_000_000));
    assert_eq!(d.on_end().unwrap_err(), ("下载数据不完整（70/100 B），已删除临时文件。".to_string(), true));
    d.on_chunk(30, 300_000_001);
    assert!(d.on_end().is_ok());
    assert_eq!(update_download::run_download_failed(&DownloadFailure::Cancelled), ("已取消下载。".to_string(), true));
    assert_eq!(update_download::run_download_failed(&DownloadFailure::Request("x".into())).0, "请求下载失败：x");
    assert_eq!(update_download::run_download_failed(&DownloadFailure::Read("x".into())).0, "读取下载流失败：x");
    assert_eq!(update_download::run_download_failed(&DownloadFailure::Write("x".into())).0, "写入临时文件失败：x");
    assert_eq!(
        update_download::run_download_failed(&DownloadFailure::Create { path: "p".into(), reason: "x".into() }).0,
        "创建临时文件失败（p）：x"
    );
}

#[test]
fn only_installers_are_run() {
    assert_eq!(update_download::installer_path(" \"C:\\a.exe\" "), "C:\\a.exe");
    assert!(update_download::install_downloaded_update("C:\\a.EXE", true, Ok(2_000_000)).is_ok());
    assert_eq!(update_download::install_downloaded_update("C:\\a.exe", false, Ok(1)).unwrap_err(), "安装包不存在：C:\\a.exe");
    assert_eq!(update_download::install_downloaded_update("C:\\a.msi", true, Ok(1)).unwrap_err(), "只允许启动 .exe 安装包。");
    assert_eq!(
        update_download::install_downloaded_update("C:\\a.exe", true, Ok(5)).unwrap_err(),
        "安装包大小异常（5 B），拒绝执行。"
    );
    assert_eq!(update_download::installer_args(), "/VERYSILENT /SUPPRESSMSGBOXES /NORESTART");
}

// ---- starting at login --------------------------------------------------------------------

#[test]
fn the_start_at_login_is_read_and_changed() {
    let exe = Some("C:\\Find X\\findx2.exe".to_string());
    let cmd = autostart::current_exe_command("C:\\Find X\\findx2.exe");
    assert_eq!(cmd, "\"C:\\Find X\\findx2.exe\"");
    assert!(autostart::command_matches_current("\"c:/find x/FINDX2.exe\"", &exe));
    assert!(!autostart::command_matches_current("\"C:\\other.exe\"", &exe));
    assert!(autostart::command_matches_current("\"C:\\Find X\\findx2.exe\" --minimized", &exe));
    assert!(autostart::command_matches_current(" c:/find x/findx2.EXE ", &exe));
    assert!(!autostart::command_matches_current("\"C:\\Find X\" findx2.exe", &exe));
    assert!(!autostart::command_matches_current(&cmd, &None));
    let s = autostart::read(Registry::Stored(Ok(Some(cmd.clone()))), &exe);
    assert!(s.enabled && s.supported);
    let s = autostart::read(Registry::Stored(Ok(None)), &exe);
    assert!(!s.enabled && s.supported);
    let s = autostart::read(Registry::Unsupported, &exe);
    assert!(!s.supported && s.unsupported_reason.is_some());
    let s = autostart::apply(true, Some(Ok(0)), Registry::Stored(Ok(Some(cmd))), &exe).unwrap();
    assert!(s.enabled);
    assert!(autostart::apply(false, Some(Ok(2)), Registry::Stored(Ok(None)), &exe).is_ok());
    assert_eq!(
        autostart::apply(true, Some(Ok(5)), Registry::Stored(Ok(None)), &exe).unwrap_err(),
        "写入自启动项失败: Win32 错误 5"
    );
    assert_eq!(
        autostart::apply(false, Some(Ok(5)), Registry::Stored(Ok(None)), &exe).unwrap_err(),
        "删除自启动项失败: Win32 错误 5"
    );
    let odd = Some("C:\\a\"b.exe".to_string());
    let odd_cmd = autostart::current_exe_command("C:\\a\"b.exe");
    assert!(autostart::read(Registry::Stored(Ok(Some(odd_cmd))), &odd).enabled);
    assert!(autostart::open_run_key(0).unwrap().is_some());
    assert!(autostart::open_run_key(2).unwrap().is_none());
    assert!(autostart::open_run_key(5).is_err());
}

#[test]
fn the_stored_command_is_read() {
    let bytes: Vec<u8> = "\"C:\\a.exe\"\0".encode_utf16().flat_map(|u| u.to_le_bytes()).collect();
    assert_eq!(autostart::read_command(0, 0, 0, &bytes).unwrap().as_deref(), Some("\"C:\\a.exe\""));
    assert_eq!(autostart::read_command(2, 9, 9, &[]), Ok(None));
    assert_eq!(autostart::read_command(0, 2, 9, &[]), Ok(None));
    assert_eq!(autostart::read_command(0, 5, 9, &[]).unwrap_err(), "读取自启动项失败: Win32 错误 5");
    assert_eq!(autostart::read_command(0, 0, 6, &[]).unwrap_err(), "读取自启动项失败: Win32 错误 6");
    assert!(autostart::read_command(7, 0, 0, &[]).unwrap_err().ends_with("Run 失败: Win32 错误 7"));
}

#[test]
fn switched_autostart_reads_back() {
    let exe = Some("C:\\Find X\\查找.exe".to_string());
    let bytes = match autostart::run_change(true, "C:\\Find X\\查找.exe") {
        RunChange::Write(b) => b,
        RunChange::Delete => panic!("deleted"),
    };
    assert_eq!((bytes.len(), &bytes[..4]), (2 * (18 + 1), &[b'"', 0, b'C', 0][..]));
    let stored = autostart::read_command(0, 0, 0, &bytes);
    let s = autostart::apply(true, Some(Ok(0)), Registry::Stored(stored), &exe).unwrap();
    assert_eq!((s.enabled, s.command.as_deref()), (true, Some("\"C:\\Find X\\查找.exe\"")));
    assert!(matches!(autostart::run_change(false, "C:\\a.exe"), RunChange::Delete));
}

#[test]
fn the_user_path_is_extended_by_a_script() {
    let path = Some("C:\\x".to_string());
    let s = service_start::ensure_cli_on_user_path(true, &path, "C:\\it's").unwrap();
    assert!(s.starts_with("$ErrorActionPreference='Stop';$target='C:\\it''s';$current="));
    assert!(s.contains(".TrimEnd('\\','/').ToLowerInvariant() };"));
    assert!(service_start::ensure_cli_on_user_path(true, &path, "c:\\X\\").is_none());
    assert!(service_start::ensure_cli_on_user_path(false, &None, "C:\\x").is_none());
    assert!(service_start::ensure_cli_on_user_path(true, &None, "C:\\x").is_some());
    assert!(service_start::user_path_written(&Ok(Some(0))).is_ok());
    assert_eq!(
        service_start::user_path_written(&Ok(Some(1))).unwrap_err(),
        "写入用户 PATH 失败（powershell 退出码 Some(1)）"
    );
    assert_eq!(
        service_start::user_path_written(&Ok(None)).unwrap_err(),
        "写入用户 PATH 失败（powershell 退出码 None）"
    );
    assert_eq!(service_start::user_path_written(&Err("e".into())).unwrap_err(), "写入用户 PATH 失败：e");
}
