//! Building the index from the window program: the command line of the build, what its end means,
//! and how the service is brought up afterwards.
use vstd::prelude::*;
use crate::findx_settings::{self, FindxGuiSettings, FindxGuiSettingsView};
use crate::paths::{self, PathStyle};
use crate::service_start;
use crate::text;
use crate::win_service;

verus! {

/// How often the service is started after a build.
pub const SPAWN_ATTEMPTS: u32 = 12;

/// How long the window waits for the service to answer, in seconds.
pub const SERVICE_PIPE_WAIT_SECS: u64 = 300;

// ---- the command line of a build ----------------------------------------------------------

/// The drives without white space around them; blank ones are left out.
pub open spec fn given_drives(drives: Seq<Seq<char>>) -> Seq<Seq<char>>
    decreases drives.len(),
{
    if drives.len() == 0 {
        Seq::empty()
    } else {
        let rest = given_drives(drives.drop_last());
        if text::trimmed(drives.last()).len() == 0 {
            rest
        } else {
            rest.push(text::trimmed(drives.last()))
        }
    }
}

/// Which volumes are indexed: the one that was asked for, else the drives of the settings, else
/// all of them.
pub open spec fn volume_args(asked: Option<Seq<char>>, drives: Seq<Seq<char>>) -> Seq<Seq<char>> {
    let all = text::joined(given_drives(drives), ","@);
    match asked {
        Some(d) if text::trimmed(d).len() > 0 => seq!["--volume"@, text::trimmed(d)],
        _ => if all.len() == 0 {
            Seq::empty()
        } else {
            seq!["--volumes"@, all]
        },
    }
}

pub open spec fn index_args(
    s: FindxGuiSettingsView,
    index: Seq<char>,
    progress: Seq<char>,
    asked: Option<Seq<char>>,
) -> Seq<Seq<char>> {
    seq!["index"@, "--output"@, index] + volume_args(asked, s.drives) + win_service::flag(
        s.first_index_full_metadata,
        "--full-stat"@,
    ) + service_start::trimmed_excludes(s.excluded_dirs) + seq!["--progress-file"@, progress]
}

fn joined_drives(drives: &Vec<String>) -> (r: String)
    ensures
        r@ == text::joined(given_drives(text::texts(drives@)), ","@),
{
    let ghost all = text::texts(drives@);
    let mut out: Vec<String> = Vec::new();
    let mut i: usize = 0;
    proof {
        assert(all.take(0) =~= Seq::empty());
        assert(text::texts(out@) =~= Seq::empty());
    }
    while i < drives.len()
        invariant
            i <= drives.len(),
            all == text::texts(drives@),
            text::texts(out@) == given_drives(all.take(i as int)),
        decreases drives.len() - i,
    {
        let ghost had = text::texts(out@);
        proof {
            assert(all.take(i + 1).drop_last() =~= all.take(i as int));
            assert(all.take(i + 1).last() == drives@[i as int]@);
        }
        let d = text::trim(&drives[i]);
        if !d.as_str().is_empty() {
            out.push(d);
            proof {
                assert(text::texts(out@) =~= had.push(d@));
            }
        }
        i += 1;
    }
    assert(all.take(all.len() as int) =~= all);
    text::join(&out, ",")
}

/// The command line that builds the index.
pub fn index_cli_args(
    s: &FindxGuiSettings,
    index: &str,
    progress: &str,
    asked: &Option<String>,
) -> (r: Vec<String>)
    ensures
        text::texts(r@) == index_args(
            s@,
            index@,
            progress@,
            text::opt_view(*asked),
        ),
{
    let mut v: Vec<String> = Vec::new();
    win_service::push_text(&mut v, "index");
    win_service::push_text(&mut v, "--output");
    win_service::push_text(&mut v, index);
    let ghost head = seq!["index"@, "--output"@, index@];
    proof {
        assert(text::texts(v@) =~= head);
    }
    let drive = match asked {
        Some(d) => text::trim(d),
        None => String::new(),
    };
    let ghost vols = volume_args(text::opt_view(*asked), s@.drives);
    if !drive.as_str().is_empty() {
        win_service::push_text(&mut v, "--volume");
        win_service::push_text(&mut v, &drive);
        proof {
            assert(text::texts(v@) =~= head + vols);
        }
    } else {
        let all = joined_drives(&s.drives);
        if !all.as_str().is_empty() {
            win_service::push_text(&mut v, "--volumes");
            win_service::push_text(&mut v, &all);
        }
        proof {
            assert(text::texts(v@) =~= head + vols);
        }
    }
    win_service::push_flag(&mut v, s.first_index_full_metadata, "--full-stat");
    service_start::push_trimmed_excludes(&mut v, &s.excluded_dirs);
    let ghost most = text::texts(v@);
    win_service::push_text(&mut v, "--progress-file");
    win_service::push_text(&mut v, progress);
    proof {
        assert(text::texts(v@) =~= most + seq!["--progress-file"@, progress@]);
    }
    v
}

/// What the program knows of builds of its own.
#[derive(Debug, Clone, Copy, PartialEq, Eq, Structural)]
pub struct IndexBuildState {
    pub running: bool,
    /// A build will start by itself.
    pub pending_auto_start: bool,
}

/// Begins a build, or says why not: only on Windows, not while another runs, and only with the
/// command line program. `cli_found` says whether that is there, or why the settings that tell its
/// place could not be read. What was to start by itself no longer does once a build has started or
/// the program is missing.
pub fn start_indexing_impl(
    state: &mut IndexBuildState,
    windows: bool,
    cli_found: Result<bool, String>,
) -> (r: Result<(), String>)
    ensures
        if !windows {
            &&& r matches Err(e) && e@ == "FindX2 GUI 建索引当前仅支持 Windows."@
            &&& *final(state) == *old(state)
        } else if old(state).running {
            &&& r matches Err(e) && e@ == "已有建索引任务在运行"@
            &&& *final(state) == *old(state)
        } else {
            match cli_found {
                Err(x) => {
                    &&& r matches Err(e) && e@ == x@
                    &&& *final(state) == *old(state)
                },
                Ok(false) => {
                    &&& r matches Err(e) && e@
                        == "未找到 findx2.exe（请放在与 FindX2 GUI / findx2-service 相同目录）"@
                    &&& *final(state) == (IndexBuildState {
                        running: false,
                        pending_auto_start: false,
                    })
                },
                Ok(true) => {
                    &&& r is Ok
                    &&& *final(state) == (IndexBuildState {
                        running: true,
                        pending_auto_start: false,
                    })
                },
            }
        },
{
    if !windows {
        return Err(text::copied("FindX2 GUI 建索引当前仅支持 Windows."));
    }
    if state.running {
        return Err(text::copied("已有建索引任务在运行"));
    }
    let found = match cli_found {
        Ok(b) => b,
        Err(e) => {
            return Err(e);
        },
    };
    state.pending_auto_start = false;
    if !found {
        return Err(
            text::copied(
                "未找到 findx2.exe（请放在与 FindX2 GUI / findx2-service 相同目录）",
            ),
        );
    }
    state.running = true;
    Ok(())
}

/// A build has ended: whether the service is started now, which is after a build that went well.
pub fn build_ended(state: &mut IndexBuildState, ok: bool) -> (start_service: bool)
    ensures
        *final(state) == (IndexBuildState { running: false, ..*old(state) }),
        start_service == ok,
{
    state.running = false;
    ok
}

/// How the build is run.
#[derive(Debug, Clone, Copy, PartialEq, Eq, Structural)]
pub enum BuildRun {
    /// With the rights at hand.
    Direct,
    /// Asking for more rights.
    Elevated,
    /// It has ended, well or badly.
    Ended(bool),
}

/// The first way to run the build.
pub fn first_run(elevated: bool) -> (r: BuildRun)
    ensures
        r == (if elevated {
            BuildRun::Direct
        } else {
            BuildRun::Elevated
        }),
{
    if elevated {
        BuildRun::Direct
    } else {
        BuildRun::Elevated
    }
}

/// What follows a run that began (`Some`, with its exit code where there is one) or not: a run
/// with the rights at hand that could not begin is tried with more rights; only the code 0 is
/// success.
pub fn run_index_cli_blocking(run: BuildRun, began: Option<Option<i64>>) -> (r: BuildRun)
    ensures
        r == (match (run, began) {
            (BuildRun::Ended(ok), _) => BuildRun::Ended(ok),
            (BuildRun::Direct, None) => BuildRun::Elevated,
            (BuildRun::Elevated, None) => BuildRun::Ended(false),
            (_, Some(code)) => BuildRun::Ended(code == Some(0i64)),
        }),
{
    match run {
        BuildRun::Ended(ok) => BuildRun::Ended(ok),
        BuildRun::Direct => match began {
            None => BuildRun::Elevated,
            Some(code) => BuildRun::Ended(
                match code {
                    Some(c) => c == 0,
                    None => false,
                },
            ),
        },
        BuildRun::Elevated => match began {
            None => BuildRun::Ended(false),
            Some(code) => BuildRun::Ended(
                match code {
                    Some(c) => c == 0,
                    None => false,
                },
            ),
        },
    }
}

// ---- after a build ------------------------------------------------------------------------

/// What a try to start the service after a build leads to.
#[derive(Debug, Clone, Copy, PartialEq, Eq, Structural)]
pub enum SpawnNext {
    /// Pause so many milliseconds and try again.
    Retry(u64),
    /// Wait for the service to answer.
    WaitForService,
    GiveUp,
}

/// The try number `attempt` (from 1): the index is there or not, and the service was started or
/// not.
pub fn spawn_service_after_index_build(attempt: u32, index_exists: bool, started: bool) -> (r:
    SpawnNext)
    ensures
        r == (if index_exists && started {
            SpawnNext::WaitForService
        } else if attempt >= SPAWN_ATTEMPTS {
            SpawnNext::GiveUp
        } else if !index_exists {
            SpawnNext::Retry(200)
        } else {
            SpawnNext::Retry(300)
        }),
{
    if index_exists && started {
        SpawnNext::WaitForService
    } else if attempt >= SPAWN_ATTEMPTS {
        SpawnNext::GiveUp
    } else if !index_exists {
        SpawnNext::Retry(200)
    } else {
        SpawnNext::Retry(300)
    }
}

/// Between two tries to reach the service, in milliseconds.
pub const PIPE_PAUSE_MS: u64 = 200;

pub open spec fn wait_error(max_secs: u64) -> Seq<char> {
    "等待 findx2-service 就绪超时（"@ + text::decimal(max_secs as nat)
        + " 秒内命名管道仍未建立）。大索引加载较慢时请多等一会或重试「启动服务」。若进程已崩溃，请查看 %TEMP%\\findx2-service-last-error.txt 。"@
}

/// Before each try to reach the service: how long to pause if it fails, or that the time is up.
pub fn wait_for_service_pipe(elapsed_nanos: u128, max_secs: u64) -> (r: Result<u64, String>)
    ensures
        match r {
            Ok(ms) => elapsed_nanos < max_secs * 1_000_000_000 && ms == PIPE_PAUSE_MS,
            Err(e) => elapsed_nanos >= max_secs * 1_000_000_000 && e@ == wait_error(max_secs),
        },
{
    if elapsed_nanos < max_secs as u128 * 1_000_000_000 {
        return Ok(PIPE_PAUSE_MS);
    }
    let mut s = text::copied("等待 findx2-service 就绪超时（");
    s.push_str(&text::decimal_text(max_secs));
    s.push_str(
        " 秒内命名管道仍未建立）。大索引加载较慢时请多等一会或重试「启动服务」。若进程已崩溃，请查看 %TEMP%\\findx2-service-last-error.txt 。",
    );
    Err(s)
}

/// What the program does to have a running service.
#[derive(Debug, Clone, Copy, PartialEq, Eq, Structural)]
pub enum EnsureService {
    Nothing,
    BuildIndex,
    /// Start the service and wait for it to answer.
    StartService,
}

/// Without an index one is built; with one the service is started unless it answers already.
pub fn ensure_service_running(index_exists: bool, answers: bool) -> (r: EnsureService)
    ensures
        r == (if !index_exists {
            EnsureService::BuildIndex
        } else if answers {
            EnsureService::Nothing
        } else {
            EnsureService::StartService
        }),
{
    if !index_exists {
        EnsureService::BuildIndex
    } else if answers {
        EnsureService::Nothing
    } else {
        EnsureService::StartService
    }
}

/// The same at the start of the program, where the settings allow it.
pub fn auto_start_flow(auto_start: bool, index_exists: bool, answers: bool) -> (r: EnsureService)
    ensures
        r == (if !auto_start {
            EnsureService::Nothing
        } else if !index_exists {
            EnsureService::BuildIndex
        } else if answers {
            EnsureService::Nothing
        } else {
            EnsureService::StartService
        }),
{
    if !auto_start {
        EnsureService::Nothing
    } else {
        ensure_service_running(index_exists, answers)
    }
}

/// The file that keeps the excluded directories of an index.
pub fn exclude_sidecar(index: &str) -> (r: String)
    ensures
        r@ == index@ + ".exclude.json"@,
{
    let mut s = text::copied(index);
    s.push_str(".exclude.json");
    s
}

/// A new build of the whole index is refused while one runs.
pub fn rebuild_index(running: bool) -> (r: Result<(), String>)
    ensures
        match r {
            Ok(_) => !running,
            Err(e) => running && e@ == "已有建索引任务在运行，无法重建"@,
        },
{
    if running {
        Err(text::copied("已有建索引任务在运行，无法重建"))
    } else {
        Ok(())
    }
}

/// The service program that a change of the run mode calls.
pub open spec fn run_mode_exe(style: PathStyle, base: Seq<char>, service_exe_path: Seq<char>) -> Seq<
    char,
> {
    if text::trimmed(service_exe_path).len() > 0 {
        text::trimmed(service_exe_path)
    } else {
        paths::joined_path(style, base, "findx2-service.exe"@)
    }
}

pub fn run_mode_service_exe(style: PathStyle, base: &str, s: &FindxGuiSettings) -> (r: String)
    ensures
        r@ == run_mode_exe(style, base@, s@.service_exe_path),
{
    let custom = text::trim(&s.service_exe_path);
    if !custom.as_str().is_empty() {
        return custom;
    }
    proof {
        reveal_strlit(".");
        reveal_strlit("..");
        reveal_strlit("findx2-service.exe");
        assert("findx2-service.exe"@.len() == 18);
    }
    paths::join(style, base, "findx2-service.exe")
}

/// The directory of a program, else `other`.
pub open spec fn dir_of(style: PathStyle, exe: Seq<char>, other: Seq<char>) -> Seq<char> {
    match paths::parent_of(style, exe) {
        Some(p) => p,
        None => other,
    }
}

/// The directory in which a program runs: its own, else `other`.
pub fn work_dir(style: PathStyle, exe: &str, other: &str) -> (r: String)
    ensures
        r@ == dir_of(style, exe@, other@),
{
    match paths::parent(style, exe) {
        Some(p) => p,
        None => text::copied(other),
    }
}

pub open spec fn run_mode_command(target: Seq<char>, service_exe: Seq<char>, exists: bool) -> Result<
    Seq<char>,
    Seq<char>,
> {
    if !exists {
        Err("找不到 findx2-service.exe（"@ + service_exe + "），无法注册/卸载系统服务。"@)
    } else if target == "service"@ {
        Ok("install"@)
    } else if target == "standalone"@ {
        Ok("uninstall"@)
    } else {
        Err("未知的运行模式: "@ + target)
    }
}

/// The command of the service program that switches to a run mode; the program must be there.
pub fn apply_run_mode_change(target: &str, service_exe: &str, exists: bool) -> (r: Result<
    String,
    String,
>)
    ensures
        text::texts_of(r) == run_mode_command(target@, service_exe@, exists),
{
    if !exists {
        let mut e = text::copied("找不到 findx2-service.exe（");
        e.push_str(service_exe);
        e.push_str("），无法注册/卸载系统服务。");
        return Err(e);
    }
    if text::same_text(target, "service") {
        return Ok(text::copied("install"));
    }
    if text::same_text(target, "standalone") {
        return Ok(text::copied("uninstall"));
    }
    let mut e = text::copied("未知的运行模式: ");
    e.push_str(target);
    Err(e)
}

/// The command could not be run with the rights it needs.
pub fn run_mode_failed(command: &str, error: &str) -> (r: String)
    ensures
        r@ == "提权执行 `findx2-service "@ + command@ + "` 失败: "@ + error@,
{
    let mut s = text::copied("提权执行 `findx2-service ");
    s.push_str(command);
    s.push_str("` 失败: ");
    s.push_str(error);
    s
}

/// A drive that is asked for replaces the drives of the settings.
pub proof fn law_asked_drive_wins(asked: Seq<char>, drives: Seq<Seq<char>>, other: Seq<Seq<char>>)
    requires
        text::trimmed(asked).len() > 0,
    ensures
        volume_args(Some(asked), drives) == volume_args(Some(asked), other),
{
}

/// A build is asked for the file of the index first and for that of its progress last; the volume
/// that was asked for wins over the drives of the settings, and without either none is named.
pub proof fn law_build_arguments(
    s: FindxGuiSettingsView,
    index: Seq<char>,
    progress: Seq<char>,
    asked: Option<Seq<char>>,
)
    ensures
        ({
            let a = index_args(s, index, progress, asked);
            &&& a.len() >= 5
            &&& a[0] == "index"@ && a[1] == "--output"@ && a[2] == index
            &&& a[a.len() - 2] == "--progress-file"@ && a[a.len() - 1] == progress
            &&& asked is Some && text::trimmed(asked->0).len() > 0 ==> a[3] == "--volume"@ && a[4]
                == text::trimmed(asked->0)
        }),
        given_drives(s.drives).len() == 0 && asked is None ==> volume_args(asked, s.drives).len()
            == 0,
        s.first_index_full_metadata ==> index_args(s, index, progress, asked).contains(
            "--full-stat"@,
        ),
{
    let a = index_args(s, index, progress, asked);
    let head = seq!["index"@, "--output"@, index];
    let vols = volume_args(asked, s.drives);
    let full = win_service::flag(s.first_index_full_metadata, "--full-stat"@);
    if asked is Some && text::trimmed(asked->0).len() > 0 {
        assert(a[3] == vols[0] && a[4] == vols[1]);
    }
    if s.first_index_full_metadata {
        assert(a[3 + vols.len() as int] == full[0]);
    }
    if given_drives(s.drives).len() == 0 {
        assert(text::joined(given_drives(s.drives), ","@).len() == 0);
    }
}

/// The drives of the settings are those that are not blank, without the white space around them.
pub proof fn law_given_drives(drives: Seq<Seq<char>>, d: Seq<char>)
    ensures
        given_drives(drives).contains(d) <==> d.len() > 0 && exists|i: int|
            0 <= i < drives.len() && text::trimmed(#[trigger] drives[i]) == d,
    decreases drives.len(),
{
    let all = given_drives(drives);
    if drives.len() > 0 {
        let t = drives.drop_last();
        let rest = given_drives(t);
        law_given_drives(t, d);
        assert(drives[drives.len() - 1] == drives.last());
        if rest.contains(d) {
            let k = choose|k: int| 0 <= k < rest.len() && rest[k] == d;
            assert(all[k] == d);
            let i = choose|i: int| 0 <= i < t.len() && text::trimmed(#[trigger] t[i]) == d;
            assert(drives[i] == t[i]);
        }
        if all.contains(d) {
            let k = choose|k: int| 0 <= k < all.len() && all[k] == d;
            if k < rest.len() {
                assert(rest[k] == d);
            }
        }
        if exists|i: int| 0 <= i < drives.len() && text::trimmed(#[trigger] drives[i]) == d {
            let i = choose|i: int| 0 <= i < drives.len() && text::trimmed(#[trigger] drives[i]) == d;
            if i < t.len() {
                assert(t[i] == drives[i]);
            } else if d.len() > 0 {
                assert(all[rest.len() as int] == d);
            }
        }
    }
}

/// The service mode registers the service and the standalone mode takes it away; both need the
/// program, and there is no other mode.
pub proof fn law_run_mode_commands(target: Seq<char>, exe: Seq<char>)
    ensures
        run_mode_command(target, exe, false) is Err,
        run_mode_command("service"@, exe, true) == Ok::<Seq<char>, Seq<char>>("install"@),
        run_mode_command("standalone"@, exe, true) == Ok::<Seq<char>, Seq<char>>("uninstall"@),
        target != "service"@ && target != "standalone"@ ==> run_mode_command(target, exe, true) is Err,
{
    reveal_strlit("service");
    reveal_strlit("standalone");
    assert("service"@.len() != "standalone"@.len());
}

/// The program of the service is the one that the settings name, or else the one beside the window;
/// a program works in its own directory.
pub proof fn law_program_and_its_place(
    style: PathStyle,
    base: Seq<char>,
    named: Seq<char>,
    exe: Seq<char>,
)
    ensures
        text::trimmed(named).len() > 0 ==> run_mode_exe(style, base, named) == text::trimmed(named),
        text::trimmed(named).len() == 0 ==> run_mode_exe(style, base, named) == paths::joined_path(
            style,
            base,
            "findx2-service.exe"@,
        ),
        paths::parent_of(style, exe) is Some ==> dir_of(style, exe, base) == paths::parent_of(
            style,
            exe,
        )->0,
        paths::parent_of(style, exe) is None ==> dir_of(style, exe, base) == base,
{
}

/// Waiting in vain tells for how many seconds.
pub proof fn law_waiting_in_vain(secs: u64)
    ensures
        text::begins_with(
            wait_error(secs),
            "等待 findx2-service 就绪超时（"@ + text::decimal(secs as nat) + " 秒内命名管道仍未建立）"@,
        ),
{
    let head = "等待 findx2-service 就绪超时（"@;
    let n = text::decimal(secs as nat);
    reveal_strlit(" 秒内命名管道仍未建立）");
    reveal_strlit(
        " 秒内命名管道仍未建立）。大索引加载较慢时请多等一会或重试「启动服务」。若进程已崩溃，请查看 %TEMP%\\findx2-service-last-error.txt 。",
    );
    let t = head + n + " 秒内命名管道仍未建立）"@;
    assert(wait_error(secs).take(t.len() as int) =~= t);
}

} // verus!
