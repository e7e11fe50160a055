//! How the window program starts the index service: with which arguments, by which steps, and
//! what it says when a step fails.
use vstd::prelude::*;
use crate::elevate;
use crate::findx_settings::{FindxGuiSettings, FindxGuiSettingsView, RunMode};
use crate::text;
use crate::win_service;

verus! {

// ---- the search path ----------------------------------------------------------------------

/// A separator of either kind.
pub open spec fn slash(c: char) -> bool {
    c == '\\' || c == '/'
}

pub open spec fn without_slashes(s: Seq<char>) -> Seq<char>
    decreases s.len(),
{
    if s.len() > 0 && slash(s.last()) {
        without_slashes(s.drop_last())
    } else {
        s
    }
}

/// A directory of the search path in one spelling.
pub open spec fn plain_dir(s: Seq<char>) -> Seq<char> {
    text::lowercased(without_slashes(text::trimmed(s)))
}

fn dir_in_one_spelling(s: &str) -> (r: String)
    ensures
        r@ == plain_dir(s@),
{
    let t = text::trim(s);
    let cs = text::chars_of(&t);
    let mut n: usize = cs.len();
    proof {
        assert(cs@.take(n as int) =~= t@);
    }
    while n > 0 && (cs[n - 1] == '\\' || cs[n - 1] == '/')
        invariant
            n <= cs@.len(),
            without_slashes(t@) == without_slashes(cs@.take(n as int)),
        decreases n,
    {
        proof {
            assert(cs@.take(n as int).last() == cs@[n - 1]);
            assert(cs@.take(n as int).drop_last() =~= cs@.take(n - 1));
        }
        n -= 1;
    }
    proof {
        if n > 0 {
            assert(cs@.take(n as int).last() == cs@[n - 1]);
        }
    }
    let u = text::string_between(&cs, 0, n);
    assert(u@ =~= cs@.take(n as int));
    text::to_lower(&u)
}

/// The search path lists the directory, in any spelling.
pub open spec fn lists_dir(path: Seq<char>, dir: Seq<char>) -> bool {
    exists|i: int|
        0 <= i < text::pieces(path, ';').len() && plain_dir(
            #[trigger] text::pieces(path, ';')[i],
        ).len() > 0 && plain_dir(text::pieces(path, ';')[i]) == plain_dir(dir)
}

pub fn path_contains_dir(path_value: &str, target_dir: &str) -> (r: bool)
    ensures
        r == lists_dir(path_value@, target_dir@),
{
    let target = dir_in_one_spelling(target_dir);
    let parts = text::split(path_value, ';');
    let ghost all = text::pieces(path_value@, ';');
    let mut i: usize = 0;
    while i < parts.len()
        invariant
            i <= parts.len(),
            all == text::pieces(path_value@, ';'),
            text::texts(parts@) == all,
            target@ == plain_dir(target_dir@),
            forall|k: int|
                0 <= k < i ==> !(plain_dir(#[trigger] all[k]).len() > 0 && plain_dir(all[k])
                    == target@),
        decreases parts.len() - i,
    {
        proof {
            assert(all[i as int] == parts@[i as int]@);
        }
        let p = dir_in_one_spelling(&parts[i]);
        if !p.as_str().is_empty() && text::same_text(&p, &target) {
            return true;
        }
        i += 1;
    }
    proof {
        assert(all.len() == parts@.len());
    }
    false
}

/// The search path with the directory behind it, or nothing where it is listed already.
pub fn extended_path(path_value: &str, target_dir: &str) -> (r: Option<String>)
    ensures
        match r {
            Some(s) => !lists_dir(path_value@, target_dir@) && s@ == path_value@ + ";"@
                + target_dir@,
            None => lists_dir(path_value@, target_dir@),
        },
{
    if path_contains_dir(path_value, target_dir) {
        return None;
    }
    let mut s = text::copied(path_value);
    s.push_str(";");
    s.push_str(target_dir);
    Some(s)
}

pub open spec fn path_script(target: Seq<char>) -> Seq<char> {
    "$ErrorActionPreference='Stop';$target='"@ + text::replaced(target, '\'', "''"@)
        + "';$current=[Environment]::GetEnvironmentVariable('Path','User');$parts=@();if($current){$parts=$current -split ';' | ForEach-Object {$_.Trim()} | Where-Object {$_ -ne ''}};$norm={ param([string]$p) if(-not $p){return ''} return $p.Trim().TrimEnd('\\','/').ToLowerInvariant() };$exists=$false;foreach($p in $parts){if((& $norm $p) -eq (& $norm $target)){$exists=$true;break}};if(-not $exists){$next=if([string]::IsNullOrWhiteSpace($current)){$target}else{$current.TrimEnd(';') + ';' + $target};[Environment]::SetEnvironmentVariable('Path',$next,'User')}"@
}

/// The script that adds the directory of the program to the search path of the user; nothing where
/// the directory is not there or the search path lists it already. `path` is nothing where the
/// environment has none.
pub fn ensure_cli_on_user_path(dir_exists: bool, path: &Option<String>, target: &str) -> (r: Option<
    String,
>)
    ensures
        match r {
            Some(s) => {
                &&& dir_exists
                &&& *path matches Some(p) ==> !lists_dir(p@, target@)
                &&& s@ == path_script(target@)
            },
            None => !dir_exists || (*path matches Some(p) && lists_dir(p@, target@)),
        },
{
    if !dir_exists {
        return None;
    }
    if let Some(p) = path {
        if path_contains_dir(p, target) {
            return None;
        }
    }
    let mut s = text::copied("$ErrorActionPreference='Stop';$target='");
    s.push_str(&text::replace_char(target, '\'', "''"));
    s.push_str(
        "';$current=[Environment]::GetEnvironmentVariable('Path','User');$parts=@();if($current){$parts=$current -split ';' | ForEach-Object {$_.Trim()} | Where-Object {$_ -ne ''}};$norm={ param([string]$p) if(-not $p){return ''} return $p.Trim().TrimEnd('\\','/').ToLowerInvariant() };$exists=$false;foreach($p in $parts){if((& $norm $p) -eq (& $norm $target)){$exists=$true;break}};if(-not $exists){$next=if([string]::IsNullOrWhiteSpace($current)){$target}else{$current.TrimEnd(';') + ';' + $target};[Environment]::SetEnvironmentVariable('Path',$next,'User')}",
    );
    Some(s)
}

/// What the script came to: its exit code, nothing where it was ended from outside, or why it could
/// not be run.
pub open spec fn path_update_error(ran: Result<Option<i64>, Seq<char>>) -> Option<Seq<char>> {
    match ran {
        Err(e) => Some("写入用户 PATH 失败："@ + e),
        Ok(Some(c)) => if c == 0 {
            None
        } else {
            Some(
                "写入用户 PATH 失败（powershell 退出码 Some("@ + text::signed_decimal(c as int)
                    + ")）"@,
            )
        },
        Ok(None) => Some("写入用户 PATH 失败（powershell 退出码 None）"@),
    }
}

pub fn user_path_written(ran: &Result<Option<i64>, String>) -> (r: Result<(), String>)
    ensures
        match r {
            Ok(_) => path_update_error(text::with_text(*ran)) is None,
            Err(e) => path_update_error(text::with_text(*ran)) == Some(e@),
        },
{
    match ran {
        Err(e) => {
            let mut t = text::copied("写入用户 PATH 失败：");
            t.push_str(e);
            Err(t)
        },
        Ok(Some(c)) => {
            if *c == 0 {
                return Ok(());
            }
            let mut t = text::copied("写入用户 PATH 失败（powershell 退出码 Some(");
            t.push_str(&text::signed_decimal_text(*c));
            t.push_str(")）");
            Err(t)
        },
        Ok(None) => Err(text::copied("写入用户 PATH 失败（powershell 退出码 None）")),
    }
}

proof fn lemma_pieces_append(a: Seq<char>, b: Seq<char>, c: char)
    requires
        !b.contains(c),
    ensures
        text::pieces(a.push(c) + b, c) == text::pieces(a, c).push(b),
    decreases b.len(),
{
    let s = a.push(c) + b;
    if b.len() == 0 {
        assert(s =~= a.push(c));
        assert(a.push(c).drop_last() =~= a);
        assert(b =~= Seq::<char>::empty());
    } else {
        let b1 = b.drop_last();
        assert(s.drop_last() =~= a.push(c) + b1);
        assert(s.last() == b.last());
        assert(!b1.contains(c)) by {
            if b1.contains(c) {
                let k = choose|k: int| 0 <= k < b1.len() && b1[k] == c;
                assert(b[k] == c);
            }
        }
        assert(b.last() != c) by {
            assert(b[b.len() - 1] == b.last());
        }
        lemma_pieces_append(a, b1, c);
        let rest = text::pieces(a, c);
        assert(b1.push(b.last()) =~= b);
        assert(rest.push(b1).update(rest.len() as int, b1.push(b.last())) =~= rest.push(b));
    }
}

/// After a directory was added it is listed, so that it is added at most once.
pub proof fn law_added_once(path: Seq<char>, dir: Seq<char>)
    requires
        !dir.contains(';'),
        plain_dir(dir).len() > 0,
    ensures
        lists_dir(path + ";"@ + dir, dir),
{
    reveal_strlit(";");
    assert(path + ";"@ =~= path.push(';'));
    lemma_pieces_append(path, dir, ';');
    let all = text::pieces(path + ";"@ + dir, ';');
    assert(all[all.len() - 1] == dir);
}

// ---- arguments ----------------------------------------------------------------------------

/// The arguments for the excluded directories, without white space around them; blank ones are
/// left out.
pub open spec fn trimmed_excludes(dirs: Seq<Seq<char>>) -> Seq<Seq<char>>
    decreases dirs.len(),
{
    if dirs.len() == 0 {
        Seq::empty()
    } else {
        let rest = trimmed_excludes(dirs.drop_last());
        if text::trimmed(dirs.last()).len() == 0 {
            rest
        } else {
            rest.push("--exclude-dir"@).push(text::trimmed(dirs.last()))
        }
    }
}

pub(crate) fn push_trimmed_excludes(v: &mut Vec<String>, dirs: &Vec<String>)
    ensures
        text::texts(final(v)@) == text::texts(old(v)@) + trimmed_excludes(text::texts(dirs@)),
{
    let ghost before = text::texts(v@);
    let ghost all = text::texts(dirs@);
    let mut i: usize = 0;
    proof {
        assert(text::texts(v@) =~= before + trimmed_excludes(all.take(0)));
    }
    while i < dirs.len()
        invariant
            i <= dirs.len(),
            all == text::texts(dirs@),
            text::texts(v@) == before + trimmed_excludes(all.take(i as int)),
        decreases dirs.len() - i,
    {
        let ghost had = text::texts(v@);
        let ghost rest = trimmed_excludes(all.take(i as int));
        proof {
            assert(all.take(i + 1).drop_last() =~= all.take(i as int));
            assert(all.take(i + 1).last() == dirs@[i as int]@);
        }
        let d = text::trim(&dirs[i]);
        if !d.as_str().is_empty() {
            win_service::push_text(v, "--exclude-dir");
            win_service::push_text(v, &d);
            proof {
                assert(text::texts(v@) == had.push("--exclude-dir"@).push(d@));
                assert(text::texts(v@) =~= before + rest.push("--exclude-dir"@).push(d@));
            }
        }
        i += 1;
    }
    assert(all.take(all.len() as int) =~= all);
}

pub open spec fn at_least_one(n: u64) -> nat {
    if n < 1 {
        1
    } else {
        n as nat
    }
}

/// The arguments of the service for an index, a volume and a pipe.
pub open spec fn service_args(
    s: FindxGuiSettingsView,
    index: Seq<char>,
    volume: Seq<char>,
    pipe: Seq<char>,
) -> Seq<Seq<char>> {
    seq![
        "--index"@,
        index,
        "--volume"@,
        volume,
        "--pipe"@,
        pipe,
        "--save-interval-secs"@,
        text::decimal(at_least_one(s.save_interval_secs)),
    ] + win_service::flag(!s.enable_everything_ipc, "--no-everything-ipc"@) + win_service::flag(
        !s.enable_metadata_backfill,
        "--no-backfill"@,
    ) + trimmed_excludes(s.excluded_dirs)
}

fn push_service_args(
    v: &mut Vec<String>,
    s: &FindxGuiSettings,
    index: &str,
    volume: &str,
    pipe: &str,
)
    ensures
        text::texts(final(v)@) == text::texts(old(v)@) + service_args(s@, index@, volume@, pipe@),
{
    let ghost before = text::texts(v@);
    win_service::push_text(v, "--index");
    win_service::push_text(v, index);
    win_service::push_text(v, "--volume");
    win_service::push_text(v, volume);
    win_service::push_text(v, "--pipe");
    win_service::push_text(v, pipe);
    win_service::push_text(v, "--save-interval-secs");
    let secs: u64 = if s.save_interval_secs < 1 {
        1
    } else {
        s.save_interval_secs
    };
    let n = text::decimal_text(secs);
    win_service::push_text(v, &n);
    let ghost head = seq![
        "--index"@,
        index@,
        "--volume"@,
        volume@,
        "--pipe"@,
        pipe@,
        "--save-interval-secs"@,
        n@,
    ];
    proof {
        assert(text::texts(v@) =~= before + head);
    }
    win_service::push_flag(v, !s.enable_everything_ipc, "--no-everything-ipc");
    win_service::push_flag(v, !s.enable_metadata_backfill, "--no-backfill");
    push_trimmed_excludes(v, &s.excluded_dirs);
    proof {
        let f1 = win_service::flag(!s.enable_everything_ipc, "--no-everything-ipc"@);
        let f2 = win_service::flag(!s.enable_metadata_backfill, "--no-backfill"@);
        let ex = trimmed_excludes(text::texts(s.excluded_dirs@));
        assert(text::texts(v@) == before + head + f1 + f2 + ex);
        assert(before + head + f1 + f2 + ex =~= before + (head + f1 + f2 + ex));
    }
}

/// The arguments of the service as a program of its own.
pub fn spawn_args(s: &FindxGuiSettings, index: &str, volume: &str, pipe: &str) -> (r: Vec<String>)
    ensures
        text::texts(r@) == service_args(s@, index@, volume@, pipe@),
{
    let mut v: Vec<String> = Vec::new();
    let ghost none = text::texts(v@);
    push_service_args(&mut v, s, index, volume, pipe);
    proof {
        let all = service_args(s@, index@, volume@, pipe@);
        assert(none =~= Seq::empty());
        assert(none + all =~= all);
    }
    v
}

/// The arguments that register the service.
pub open spec fn install_args(
    s: FindxGuiSettingsView,
    index: Seq<char>,
    volume: Seq<char>,
    pipe: Seq<char>,
) -> Seq<Seq<char>> {
    seq!["install"@] + service_args(s, index, volume, pipe)
}

pub fn install_args_list(s: &FindxGuiSettings, index: &str, volume: &str, pipe: &str) -> (r: Vec<
    String,
>)
    ensures
        text::texts(r@) == install_args(s@, index@, volume@, pipe@),
{
    let mut v: Vec<String> = Vec::new();
    win_service::push_text(&mut v, "install");
    assert(text::texts(v@) =~= seq!["install"@]);
    push_service_args(&mut v, s, index, volume, pipe);
    v
}

/// The same as one command line.
pub fn install_args_for_settings(s: &FindxGuiSettings, index: &str, volume: &str, pipe: &str) -> (r:
    String)
    ensures
        r@ == elevate::shell_params(install_args(s@, index@, volume@, pipe@)),
{
    let v = install_args_list(s, index, volume, pipe);
    elevate::index_cli_args_to_shell_params(&v)
}

/// The arguments of the service as one command line.
pub fn spawn_params(s: &FindxGuiSettings, index: &str, volume: &str, pipe: &str) -> (r: String)
    ensures
        r@ == elevate::shell_params(service_args(s@, index@, volume@, pipe@)),
{
    let v = spawn_args(s, index, volume, pipe);
    elevate::index_cli_args_to_shell_params(&v)
}

/// The arguments of the service on systems with one file tree.
pub open spec fn tree_args(
    s: FindxGuiSettingsView,
    index: Seq<char>,
    volume: Seq<char>,
    pipe: Seq<char>,
) -> Seq<Seq<char>> {
    seq!["--index"@, index, "--volume"@, volume, "--pipe"@, pipe] + win_service::flag(
        !s.enable_metadata_backfill,
        "--no-backfill"@,
    ) + win_service::exclude_args(s.excluded_dirs)
}

pub fn tree_spawn_args(s: &FindxGuiSettings, index: &str, volume: &str, pipe: &str) -> (r: Vec<
    String,
>)
    ensures
        text::texts(r@) == tree_args(s@, index@, volume@, pipe@),
{
    let mut v: Vec<String> = Vec::new();
    win_service::push_text(&mut v, "--index");
    win_service::push_text(&mut v, index);
    win_service::push_text(&mut v, "--volume");
    win_service::push_text(&mut v, volume);
    win_service::push_text(&mut v, "--pipe");
    win_service::push_text(&mut v, pipe);
    assert(text::texts(v@) =~= seq![
        "--index"@,
        index@,
        "--volume"@,
        volume@,
        "--pipe"@,
        pipe@,
    ]);
    win_service::push_flag(&mut v, !s.enable_metadata_backfill, "--no-backfill");
    win_service::push_exclude_args(&mut v, &s.excluded_dirs);
    v
}

/// A text without white space around it, or a default where nothing is left.
pub open spec fn text_or(s: Seq<char>, default: Seq<char>) -> Seq<char> {
    if text::trimmed(s).len() == 0 {
        default
    } else {
        text::trimmed(s)
    }
}

fn trimmed_or(s: &str, default: &str) -> (r: String)
    ensures
        r@ == text_or(s@, default@),
{
    let t = text::trim(s);
    if t.as_str().is_empty() {
        text::copied(default)
    } else {
        t
    }
}

/// The pipe of the settings.
pub fn pipe_of(s: &FindxGuiSettings) -> (r: String)
    ensures
        r@ == text_or(s@.pipe_name, "findx2"@),
{
    trimmed_or(&s.pipe_name, "findx2")
}

/// The volume of the settings.
pub fn volume_of(s: &FindxGuiSettings) -> (r: String)
    ensures
        r@ == text_or(s@.volume, "C:"@),
{
    trimmed_or(&s.volume, "C:")
}

// ---- starting -----------------------------------------------------------------------------

/// What starting the service comes down to.
#[derive(Debug)]
pub enum SpawnPlan {
    /// Through the service manager, by the steps of `start_service_mode_process`.
    Manager { volume: String, pipe: String },
    /// As a program of its own with these arguments.
    Program { volume: String, pipe: String, args: Vec<String> },
    Refused(String),
}

/// The arguments of a service that is started as a program of its own; on systems with one file
/// tree it has fewer.
pub open spec fn program_args(
    s: FindxGuiSettingsView,
    index: Seq<char>,
    volume: Seq<char>,
    pipe: Seq<char>,
    windows: bool,
) -> Seq<Seq<char>> {
    if windows {
        service_args(s, index, volume, pipe)
    } else {
        tree_args(s, index, volume, pipe)
    }
}

/// Plans the start for an index at `index`, which must exist. There is a service manager on Windows
/// only; elsewhere the service is a program of its own in any mode.
pub fn spawn_findx_service_process(
    s: &FindxGuiSettings,
    index: &str,
    index_exists: bool,
    windows: bool,
) -> (r: SpawnPlan)
    ensures
        if !index_exists {
            r matches SpawnPlan::Refused(e) && e@ == "索引文件不存在: "@ + index@
        } else if windows && s@.run_mode == RunMode::Service {
            r matches SpawnPlan::Manager { volume, pipe } && volume@ == text_or(s@.volume, "C:"@)
                && pipe@ == text_or(s@.pipe_name, "findx2"@)
        } else {
            r matches SpawnPlan::Program { volume, pipe, args } && volume@ == text_or(
                s@.volume,
                "C:"@,
            ) && pipe@ == text_or(s@.pipe_name, "findx2"@) && text::texts(args@) == program_args(
                s@,
                index@,
                volume@,
                pipe@,
                windows,
            )
        },
{
    if !index_exists {
        let mut e = text::copied("索引文件不存在: ");
        e.push_str(index);
        return SpawnPlan::Refused(e);
    }
    let volume = volume_of(s);
    let pipe = pipe_of(s);
    if !windows {
        let args = tree_spawn_args(s, index, &volume, &pipe);
        return SpawnPlan::Program { volume, pipe, args };
    }
    match s.run_mode {
        RunMode::Service => SpawnPlan::Manager { volume, pipe },
        RunMode::Standalone => {
            let args = spawn_args(s, index, &volume, &pipe);
            SpawnPlan::Program { volume, pipe, args }
        },
    }
}

/// What follows where the program could not be started.
#[derive(Debug)]
pub enum AfterSpawnFailure {
    /// Start it with more rights.
    AskForRights,
    Failed(String),
}

pub fn after_spawn_failure(error: &str, windows: bool, elevated: bool) -> (r: AfterSpawnFailure)
    ensures
        if !windows {
            r matches AfterSpawnFailure::Failed(e) && e@ == "启动 findx2-service 失败: "@ + error@
        } else if elevated {
            r matches AfterSpawnFailure::Failed(e) && e@ == "直接启动 findx2-service 失败: "@
                + error@
                + "。当前 FindX2 已以管理员运行，子进程应能继承权限，请检查 exe 是否被拦截、路径与 index.bin 是否正确。"@
        } else {
            r is AskForRights
        },
{
    if !windows {
        let mut e = text::copied("启动 findx2-service 失败: ");
        e.push_str(error);
        return AfterSpawnFailure::Failed(e);
    }
    if elevated {
        let mut e = text::copied("直接启动 findx2-service 失败: ");
        e.push_str(error);
        e.push_str(
            "。当前 FindX2 已以管理员运行，子进程应能继承权限，请检查 exe 是否被拦截、路径与 index.bin 是否正确。",
        );
        AfterSpawnFailure::Failed(e)
    } else {
        AfterSpawnFailure::AskForRights
    }
}

/// Both ways to start the program failed.
pub fn both_failed(direct: &str, elevated: &str) -> (r: String)
    ensures
        r@ == "直接启动失败: "@ + direct@ + "；提权启动失败: "@ + elevated@,
{
    let mut e = text::copied("直接启动失败: ");
    e.push_str(direct);
    e.push_str("；提权启动失败: ");
    e.push_str(elevated);
    e
}

/// What a call of the service manager's tool came to.
#[derive(Debug)]
pub enum ToolResult {
    /// It could not be run.
    NotRun(String),
    Ended { code: i32, output: String },
}

/// The tool says that the service runs.
pub open spec fn says_running(r: ToolResult) -> bool {
    r matches ToolResult::Ended { code, output } && code == 0 && text::holds(output@, "RUNNING"@)
}

pub fn windows_service_is_running(r: &ToolResult) -> (b: bool)
    ensures
        b == says_running(*r),
{
    match r {
        ToolResult::NotRun(_) => false,
        ToolResult::Ended { code, output } => *code == 0 && text::contains(output, "RUNNING"),
    }
}

pub open spec fn start_error(code: i32, output: Seq<char>) -> Seq<char> {
    "sc start FindX2Search 失败 ("@ + text::signed_decimal(code as int) + "): "@ + text::trimmed(
        output,
    )
}

/// The end of a try to start a service that did not run: `start` is what starting said, and
/// `after` what the tool said afterwards.
pub fn try_start_windows_service(start: &ToolResult, after: &ToolResult) -> (r: Result<(), String>)
    ensures
        match *start {
            ToolResult::NotRun(e) => r matches Err(t) && t@ == e@,
            ToolResult::Ended { code, output } => if code == 0 || code == 1056 || text::holds(
                output@,
                "1056"@,
            ) || says_running(*after) {
                r is Ok
            } else {
                r matches Err(t) && t@ == start_error(code, output@)
            },
        },
{
    match start {
        ToolResult::NotRun(e) => Err(text::copied(e)),
        ToolResult::Ended { code, output } => {
            if *code == 0 || *code == 1056 || text::contains(output, "1056")
                || windows_service_is_running(after) {
                return Ok(());
            }
            let mut t = text::copied("sc start FindX2Search 失败 (");
            t.push_str(&text::signed_decimal_text(*code as i64));
            t.push_str("): ");
            t.push_str(&text::trim(output));
            Err(t)
        },
    }
}

/// The steps by which the service manager is brought to run the service.
#[derive(Debug, Clone, Copy, PartialEq, Eq, Structural)]
pub enum StartStep {
    /// Start what is registered.
    Start,
    /// Register the service, with the rights at hand.
    Register,
    /// Register the service, asking for more rights.
    RegisterElevated,
    /// Start what was just registered with the rights at hand.
    StartRegistered,
    /// Start what was just registered with more rights.
    StartAfterElevated,
    /// Start it, asking for more rights.
    StartElevated,
}

/// What a step came to.
#[derive(Debug)]
pub enum StepResult {
    Done,
    /// It could not be run, or starting failed with this text.
    Failed(String),
    /// The program that registers ended with a code other than 0 (or without one).
    BadExit(Option<i64>),
}

pub enum StepResultView {
    Done,
    Failed(Seq<char>),
    BadExit(Option<i64>),
}

impl View for StepResult {
    type V = StepResultView;

    open spec fn view(&self) -> StepResultView {
        match *self {
            StepResult::Done => StepResultView::Done,
            StepResult::Failed(e) => StepResultView::Failed(e@),
            StepResult::BadExit(c) => StepResultView::BadExit(c),
        }
    }
}

/// What follows a step.
#[derive(Debug)]
pub enum StartNext {
    Step(StartStep),
    Started,
    Failed(String),
}

pub enum StartNextView {
    Step(StartStep),
    Started,
    Failed(Seq<char>),
}

impl View for StartNext {
    type V = StartNextView;

    open spec fn view(&self) -> StartNextView {
        match *self {
            StartNext::Step(s) => StartNextView::Step(s),
            StartNext::Started => StartNextView::Started,
            StartNext::Failed(e) => StartNextView::Failed(e@),
        }
    }
}

pub open spec fn exit_text(head: Seq<char>, code: Option<i64>) -> Seq<char> {
    head + "（退出码 "@ + text::signed_decimal(
        match code {
            Some(c) => c as int,
            None => -1,
        },
    ) + "）。"@
}

/// The order of the steps; `elevated` if the program has the rights already.
pub open spec fn start_next(step: StartStep, result: StepResultView, elevated: bool) ->
    StartNextView {
    match step {
        StartStep::Start => match result {
            StepResultView::Done => StartNextView::Started,
            _ => StartNextView::Step(
                if elevated {
                    StartStep::Register
                } else {
                    StartStep::RegisterElevated
                },
            ),
        },
        StartStep::Register => match result {
            StepResultView::Done => StartNextView::Step(StartStep::StartRegistered),
            StepResultView::Failed(e) => StartNextView::Failed("注册系统服务失败: "@ + e),
            StepResultView::BadExit(c) => StartNextView::Failed(
                exit_text("注册系统服务失败"@, c),
            ),
        },
        StartStep::RegisterElevated => match result {
            StepResultView::Done => StartNextView::Step(StartStep::StartAfterElevated),
            StepResultView::Failed(e) => StartNextView::Failed(
                "提权注册系统服务失败: "@ + e,
            ),
            StepResultView::BadExit(c) => StartNextView::Failed(
                exit_text("提权注册系统服务失败"@, c),
            ),
        },
        StartStep::StartRegistered => match result {
            StepResultView::Done => StartNextView::Started,
            StepResultView::Failed(e) => StartNextView::Failed(e),
            StepResultView::BadExit(c) => StartNextView::Failed(exit_text(Seq::empty(), c)),
        },
        StartStep::StartAfterElevated => match result {
            StepResultView::Done => StartNextView::Started,
            _ => StartNextView::Step(StartStep::StartElevated),
        },
        StartStep::StartElevated => match result {
            StepResultView::Failed(e) => StartNextView::Failed("提权启动系统服务失败: "@ + e),
            _ => StartNextView::Started,
        },
    }
}

fn with_exit(head: &str, code: &Option<i64>) -> (r: String)
    ensures
        r@ == exit_text(head@, *code),
{
    let mut s = text::copied(head);
    s.push_str("（退出码 ");
    let n: i64 = match code {
        Some(c) => *c,
        None => -1,
    };
    s.push_str(&text::signed_decimal_text(n));
    s.push_str("）。");
    s
}

fn with_reason(head: &str, e: &str) -> (r: String)
    ensures
        r@ == head@ + e@,
{
    let mut s = text::copied(head);
    s.push_str(e);
    s
}

/// What follows a step of starting the service through the service manager.
pub fn start_service_mode_process(step: StartStep, result: &StepResult, elevated: bool) -> (r: StartNext)
    ensures
        r@ == start_next(step, result@, elevated),
{
    match step {
        StartStep::Start => match result {
            StepResult::Done => StartNext::Started,
            _ => if elevated {
                StartNext::Step(StartStep::Register)
            } else {
                StartNext::Step(StartStep::RegisterElevated)
            },
        },
        StartStep::Register => match result {
            StepResult::Done => StartNext::Step(StartStep::StartRegistered),
            StepResult::Failed(e) => StartNext::Failed(with_reason("注册系统服务失败: ", e)),
            StepResult::BadExit(c) => StartNext::Failed(with_exit("注册系统服务失败", c)),
        },
        StartStep::RegisterElevated => match result {
            StepResult::Done => StartNext::Step(StartStep::StartAfterElevated),
            StepResult::Failed(e) => StartNext::Failed(
                with_reason("提权注册系统服务失败: ", e),
            ),
            StepResult::BadExit(c) => StartNext::Failed(with_exit("提权注册系统服务失败", c)),
        },
        StartStep::StartRegistered => match result {
            StepResult::Done => StartNext::Started,
            StepResult::Failed(e) => StartNext::Failed(text::copied(e)),
            StepResult::BadExit(c) => {
                let s = with_exit("", c);
                proof {
                    reveal_strlit("");
                    assert(""@ =~= Seq::<char>::empty());
                }
                StartNext::Failed(s)
            },
        },
        StartStep::StartAfterElevated => match result {
            StepResult::Done => StartNext::Started,
            _ => StartNext::Step(StartStep::StartElevated),
        },
        StartStep::StartElevated => match result {
            StepResult::Failed(e) => StartNext::Failed(
                with_reason("提权启动系统服务失败: ", e),
            ),
            _ => StartNext::Started,
        },
    }
}

/// How late a step comes.
pub open spec fn step_rank(step: StartStep) -> int {
    match step {
        StartStep::Start => 0,
        StartStep::Register => 1,
        StartStep::RegisterElevated => 1,
        StartStep::StartRegistered => 2,
        StartStep::StartAfterElevated => 2,
        StartStep::StartElevated => 3,
    }
}

/// The steps come to an end: each leads to a later one, to success or to an error.
pub proof fn law_start_ends(step: StartStep, result: StepResultView, elevated: bool)
    ensures
        start_next(step, result, elevated) matches StartNextView::Step(next) ==> step_rank(next)
            > step_rank(step),
{
}

/// The directories that are not blank.
pub open spec fn not_blank() -> spec_fn(Seq<char>) -> bool {
    |d: Seq<char>| text::trimmed(d).len() > 0
}

/// Each excluded directory that is not blank is named once, behind its own switch and without the
/// white space around it, in the order of the settings.
pub proof fn law_excluded_directories_are_passed_on(dirs: Seq<Seq<char>>, k: int)
    ensures
        trimmed_excludes(dirs).len() == 2 * dirs.filter(not_blank()).len(),
        0 <= k < dirs.filter(not_blank()).len() ==> trimmed_excludes(dirs)[2 * k] == "--exclude-dir"@
            && trimmed_excludes(dirs)[2 * k + 1] == text::trimmed(dirs.filter(not_blank())[k]),
    decreases dirs.len(),
{
    reveal(Seq::filter);
    if dirs.len() > 0 {
        law_excluded_directories_are_passed_on(dirs.drop_last(), k);
    }
}

/// The service is told the index, the volume, the pipe and how often to save, each behind its own
/// switch; what the settings switch off is switched off. Registering it passes the same on.
pub proof fn law_service_arguments(
    s: FindxGuiSettingsView,
    index: Seq<char>,
    volume: Seq<char>,
    pipe: Seq<char>,
)
    ensures
        ({
            let a = service_args(s, index, volume, pipe);
            &&& a.len() >= 8
            &&& a[0] == "--index"@ && a[1] == index
            &&& a[2] == "--volume"@ && a[3] == volume
            &&& a[4] == "--pipe"@ && a[5] == pipe
            &&& a[6] == "--save-interval-secs"@
            &&& s.save_interval_secs > 0 ==> a[7] == text::decimal(s.save_interval_secs as nat)
            &&& s.save_interval_secs == 0 ==> a[7] == text::decimal(1)
            &&& !s.enable_everything_ipc ==> a.contains("--no-everything-ipc"@)
            &&& !s.enable_metadata_backfill ==> a.contains("--no-backfill"@)
            &&& s.enable_everything_ipc && s.enable_metadata_backfill ==> a.skip(8)
                == trimmed_excludes(s.excluded_dirs)
        }),
        ({
            let a = tree_args(s, index, volume, pipe);
            &&& a.len() >= 6
            &&& a[0] == "--index"@ && a[1] == index
            &&& a[2] == "--volume"@ && a[3] == volume
            &&& a[4] == "--pipe"@ && a[5] == pipe
            &&& !s.enable_metadata_backfill ==> a[6] == "--no-backfill"@
        }),
        install_args(s, index, volume, pipe)[0] == "install"@,
        install_args(s, index, volume, pipe).skip(1) == service_args(s, index, volume, pipe),
{
    let a = service_args(s, index, volume, pipe);
    let e = win_service::flag(!s.enable_everything_ipc, "--no-everything-ipc"@);
    let b = win_service::flag(!s.enable_metadata_backfill, "--no-backfill"@);
    if !s.enable_everything_ipc {
        assert(a[8] == e[0]);
    }
    if !s.enable_metadata_backfill {
        assert(a[8 + e.len() as int] == b[0]);
    }
    if s.enable_everything_ipc && s.enable_metadata_backfill {
        assert(a.skip(8) =~= trimmed_excludes(s.excluded_dirs));
    }
    assert(install_args(s, index, volume, pipe).skip(1) =~= a);
}

/// How a service is started through its manager: one that starts is started; one that does not is
/// registered, with more rights where there are not enough, and started then.
pub proof fn law_steps_of_a_managed_start(r: StepResultView, elevated: bool)
    ensures
        start_next(StartStep::Start, StepResultView::Done, elevated) == StartNextView::Started,
        !(r is Done) ==> start_next(StartStep::Start, r, true) == StartNextView::Step(
            StartStep::Register,
        ) && start_next(StartStep::Start, r, false) == StartNextView::Step(
            StartStep::RegisterElevated,
        ),
        start_next(StartStep::Register, StepResultView::Done, elevated) == StartNextView::Step(
            StartStep::StartRegistered,
        ),
        start_next(StartStep::RegisterElevated, StepResultView::Done, elevated)
            == StartNextView::Step(StartStep::StartAfterElevated),
        !(r is Done) ==> start_next(StartStep::Register, r, elevated) is Failed && start_next(
            StartStep::RegisterElevated,
            r,
            elevated,
        ) is Failed && start_next(StartStep::StartRegistered, r, elevated) is Failed,
        start_next(StartStep::StartRegistered, StepResultView::Done, elevated)
            == StartNextView::Started,
        start_next(StartStep::StartAfterElevated, StepResultView::Done, elevated)
            == StartNextView::Started,
        !(r is Done) ==> start_next(StartStep::StartAfterElevated, r, elevated)
            == StartNextView::Step(StartStep::StartElevated),
        r is Failed <==> start_next(StartStep::StartElevated, r, elevated) is Failed,
{
}

/// A service runs where the tool ended well and its output says so.
pub proof fn law_running_service(code: i32, output: String, r: ToolResult)
    ensures
        says_running(ToolResult::Ended { code, output }) <==> code == 0 && text::holds(
            output@,
            "RUNNING"@,
        ),
        !(r is Ended) ==> !says_running(r),
{
}

/// A setting that is blank gives way to its default; any other counts without white space around it.
pub proof fn law_blank_settings(s: Seq<char>, default: Seq<char>)
    ensures
        text::trimmed(s).len() == 0 ==> text_or(s, default) == default,
        text::trimmed(s).len() > 0 ==> text_or(s, default) == text::trimmed(s),
{
}

/// On Windows the program is told what the service is told, elsewhere what a tree scan needs.
pub proof fn law_arguments_by_system(
    s: FindxGuiSettingsView,
    index: Seq<char>,
    volume: Seq<char>,
    pipe: Seq<char>,
)
    ensures
        program_args(s, index, volume, pipe, true) == service_args(s, index, volume, pipe),
        program_args(s, index, volume, pipe, false) == tree_args(s, index, volume, pipe),
{
}

} // verus!
