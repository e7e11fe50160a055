//! The service under the service manager: how it is registered, and how it starts and stops.
use vstd::prelude::*;
use crate::text;

verus! {

/// The name under which the service is registered.
pub fn service_name() -> (r: String)
    ensures
        r@ == "FindX2Search"@,
{
    text::copied("FindX2Search")
}

/// How often registering is tried.
pub const INSTALL_ATTEMPTS: u32 = 20;

/// The pause between two tries.
pub const INSTALL_PAUSE_MILLIS: u64 = 250;

/// How long a stop may take, in nanoseconds.
pub const STOP_NANOS: u128 = 10_000_000_000;

// ---- registering --------------------------------------------------------------------------

/// What the registered service is started with.
#[derive(Debug)]
pub struct InstallOptions {
    pub index: String,
    pub volume: String,
    pub pipe: String,
    pub save_interval_secs: u64,
    pub full_stat: bool,
    pub max_scan_threads: u64,
    pub no_everything_ipc: bool,
    pub no_backfill: bool,
    pub exclude_dir: Vec<String>,
}

/// The arguments for the excluded directories; blank ones are left out.
pub open spec fn exclude_args(dirs: Seq<Seq<char>>) -> Seq<Seq<char>>
    decreases dirs.len(),
{
    if dirs.len() == 0 {
        Seq::empty()
    } else {
        let rest = exclude_args(dirs.drop_last());
        if text::trimmed(dirs.last()).len() == 0 {
            rest
        } else {
            rest.push("--exclude-dir"@).push(dirs.last())
        }
    }
}

pub open spec fn flag(on: bool, name: Seq<char>) -> Seq<Seq<char>> {
    if on {
        seq![name]
    } else {
        Seq::empty()
    }
}

/// The command line of the registered service.
pub open spec fn launch_args(o: InstallOptions) -> Seq<Seq<char>> {
    seq![
        "--service"@,
        "--index"@,
        o.index@,
        "--volume"@,
        o.volume@,
        "--pipe"@,
        o.pipe@,
        "--save-interval-secs"@,
        text::decimal(o.save_interval_secs as nat),
    ] + flag(o.full_stat, "--full-stat"@) + (if o.max_scan_threads != 4 {
        seq!["--max-scan-threads"@, text::decimal(o.max_scan_threads as nat)]
    } else {
        Seq::empty()
    }) + flag(o.no_everything_ipc, "--no-everything-ipc"@) + flag(
        o.no_backfill,
        "--no-backfill"@,
    ) + exclude_args(text::texts(o.exclude_dir@))
}

pub(crate) fn push_text(v: &mut Vec<String>, s: &str)
    ensures
        text::texts(final(v)@) == text::texts(old(v)@).push(s@),
{
    let ghost before = text::texts(v@);
    v.push(text::copied(s));
    assert(text::texts(v@) =~= before.push(s@));
}

pub(crate) fn push_flag(v: &mut Vec<String>, on: bool, name: &str)
    ensures
        text::texts(final(v)@) == text::texts(old(v)@) + flag(on, name@),
{
    let ghost before = text::texts(v@);
    if on {
        push_text(v, name);
    }
    assert(text::texts(v@) =~= before + flag(on, name@));
}

/// Adds the arguments for the excluded directories.
pub fn push_exclude_args(v: &mut Vec<String>, dirs: &Vec<String>)
    ensures
        text::texts(final(v)@) == text::texts(old(v)@) + exclude_args(text::texts(dirs@)),
{
    let ghost before = text::texts(v@);
    let ghost all = text::texts(dirs@);
    let mut i: usize = 0;
    proof {
        assert(text::texts(v@) =~= before + exclude_args(all.take(0)));
    }
    while i < dirs.len()
        invariant
            i <= dirs.len(),
            all == text::texts(dirs@),
            text::texts(v@) == before + exclude_args(all.take(i as int)),
        decreases dirs.len() - i,
    {
        let ghost had = text::texts(v@);
        let ghost rest = exclude_args(all.take(i as int));
        proof {
            assert(all.take(i + 1).drop_last() =~= all.take(i as int));
            assert(all.take(i + 1).last() == dirs@[i as int]@);
        }
        let blank = text::trim(&dirs[i]);
        if !blank.as_str().is_empty() {
            push_text(v, "--exclude-dir");
            push_text(v, &dirs[i]);
            proof {
                let d = dirs@[i as int]@;
                assert(text::texts(v@) == had.push("--exclude-dir"@).push(d));
                assert(text::texts(v@) =~= before + rest.push("--exclude-dir"@).push(d));
            }
        }
        i += 1;
    }
    assert(all.take(all.len() as int) =~= all);
}

/// The command line that the service is registered with.
pub fn install_args(o: &InstallOptions) -> (r: Vec<String>)
    ensures
        text::texts(r@) == launch_args(*o),
{
    let mut v: Vec<String> = Vec::new();
    push_text(&mut v, "--service");
    push_text(&mut v, "--index");
    push_text(&mut v, &o.index);
    push_text(&mut v, "--volume");
    push_text(&mut v, &o.volume);
    push_text(&mut v, "--pipe");
    push_text(&mut v, &o.pipe);
    push_text(&mut v, "--save-interval-secs");
    let secs = text::decimal_text(o.save_interval_secs);
    push_text(&mut v, &secs);
    proof {
        assert(text::texts(v@) =~= seq![
            "--service"@,
            "--index"@,
            o.index@,
            "--volume"@,
            o.volume@,
            "--pipe"@,
            o.pipe@,
            "--save-interval-secs"@,
            text::decimal(o.save_interval_secs as nat),
        ]);
    }
    push_flag(&mut v, o.full_stat, "--full-stat");
    let ghost head = text::texts(v@);
    if o.max_scan_threads != 4 {
        push_text(&mut v, "--max-scan-threads");
        let n = text::decimal_text(o.max_scan_threads);
        push_text(&mut v, &n);
    }
    proof {
        assert(text::texts(v@) =~= head + (if o.max_scan_threads != 4 {
            seq!["--max-scan-threads"@, text::decimal(o.max_scan_threads as nat)]
        } else {
            Seq::empty()
        }));
    }
    push_flag(&mut v, o.no_everything_ipc, "--no-everything-ipc");
    push_flag(&mut v, o.no_backfill, "--no-backfill");
    push_exclude_args(&mut v, &o.exclude_dir);
    v
}

/// What is done after a try to register the service failed.
#[derive(Debug)]
pub enum InstallAction {
    /// Stop and delete what is registered; a failure of this does not matter.
    DeleteExisting,
    /// Wait so many milliseconds.
    Pause(u64),
    /// Try again.
    Register,
    /// Give up with this error.
    Fail(String),
}

/// `failed` tries have failed, the last of them with `error`. Each time what is registered is
/// deleted and a pause follows, also before giving up.
pub fn install(failed: u32, error: &str) -> (r: Vec<InstallAction>)
    ensures
        r@.len() == 3,
        r@[0] == InstallAction::DeleteExisting,
        r@[1] == InstallAction::Pause(INSTALL_PAUSE_MILLIS),
        if failed < INSTALL_ATTEMPTS {
            r@[2] == InstallAction::Register
        } else {
            r@[2] matches InstallAction::Fail(e) && e@ == "注册服务 "@ + "FindX2Search"@
                + " 失败: "@ + error@
        },
{
    let mut v: Vec<InstallAction> = Vec::new();
    v.push(InstallAction::DeleteExisting);
    v.push(InstallAction::Pause(INSTALL_PAUSE_MILLIS));
    if failed < INSTALL_ATTEMPTS {
        v.push(InstallAction::Register);
    } else {
        let mut s = text::copied("注册服务 ");
        s.push_str("FindX2Search");
        s.push_str(" 失败: ");
        s.push_str(error);
        v.push(InstallAction::Fail(s));
    }
    v
}

/// The end of removing the service: it never fails, and the text says what happened. A service
/// that is not registered counts as removed.
pub fn uninstall(deleted: Result<(), String>) -> (r: Result<String, String>)
    ensures
        r matches Ok(s) && s@ == (match deleted {
            Ok(_) => "已标记删除服务 "@ + "FindX2Search"@ + "（停止后生效）"@,
            Err(e) => "卸载服务 "@ + "FindX2Search"@ + "："@ + e@ + "（可能尚未注册）"@,
        }),
{
    match deleted {
        Ok(_) => {
            let mut s = text::copied("已标记删除服务 ");
            s.push_str("FindX2Search");
            s.push_str("（停止后生效）");
            Ok(s)
        },
        Err(e) => {
            let mut s = text::copied("卸载服务 ");
            s.push_str("FindX2Search");
            s.push_str("：");
            s.push_str(&e);
            s.push_str("（可能尚未注册）");
            Ok(s)
        },
    }
}

// ---- running ------------------------------------------------------------------------------

/// A message of the service manager.
#[derive(Debug, Clone, Copy, PartialEq, Eq, Structural)]
pub enum Control {
    Stop,
    Shutdown,
    Interrogate,
    Other,
}

/// Whether a message asks for a stop, and whether it is understood at all.
pub fn on_control(c: Control) -> (r: (bool, bool))
    ensures
        r.0 == (c == Control::Stop || c == Control::Shutdown),
        r.1 == (c != Control::Other),
{
    match c {
        Control::Stop => (true, true),
        Control::Shutdown => (true, true),
        Control::Interrogate => (false, true),
        Control::Other => (false, false),
    }
}

/// Where the service stands; times are nanoseconds of a clock that does not run backwards.
#[derive(Debug, Clone, Copy, PartialEq, Eq, Structural)]
pub enum ServicePhase {
    Running,
    /// A stop was asked for; the worker has until then.
    Stopping { deadline: u128 },
    Ended,
}

/// What the service does next.
#[derive(Debug, Clone, Copy, PartialEq, Eq, Structural)]
pub enum ServiceAction {
    /// Wait so many milliseconds, then look again.
    Wait(u64),
    /// Report that the stop is under way, then look again.
    ReportStopping,
    /// Report the end and return.
    ReportStopped,
    /// End the process at once.
    ForceExit,
}

pub open spec fn service_step(
    phase: ServicePhase,
    stop: bool,
    worker_ended: bool,
    now: u128,
) -> (ServicePhase, ServiceAction) {
    match phase {
        ServicePhase::Running => if stop {
            (
                ServicePhase::Stopping { deadline: (now + STOP_NANOS) as u128 },
                ServiceAction::ReportStopping,
            )
        } else if worker_ended {
            (ServicePhase::Ended, ServiceAction::ReportStopped)
        } else {
            (phase, ServiceAction::Wait(300))
        },
        ServicePhase::Stopping { deadline } => if worker_ended {
            (ServicePhase::Ended, ServiceAction::ReportStopped)
        } else if now < deadline {
            (phase, ServiceAction::Wait(100))
        } else {
            (ServicePhase::Ended, ServiceAction::ForceExit)
        },
        ServicePhase::Ended => (phase, ServiceAction::ReportStopped),
    }
}

/// One look at the stop request and the worker.
pub fn service_main_impl(phase: ServicePhase, stop: bool, worker_ended: bool, now: u128) -> (r: (
    ServicePhase,
    ServiceAction,
))
    requires
        now + STOP_NANOS <= u128::MAX,
    ensures
        r == service_step(phase, stop, worker_ended, now),
{
    match phase {
        ServicePhase::Running => if stop {
            (
                ServicePhase::Stopping { deadline: now + STOP_NANOS },
                ServiceAction::ReportStopping,
            )
        } else if worker_ended {
            (ServicePhase::Ended, ServiceAction::ReportStopped)
        } else {
            (phase, ServiceAction::Wait(300))
        },
        ServicePhase::Stopping { deadline } => if worker_ended {
            (ServicePhase::Ended, ServiceAction::ReportStopped)
        } else if now < deadline {
            (phase, ServiceAction::Wait(100))
        } else {
            (ServicePhase::Ended, ServiceAction::ForceExit)
        },
        ServicePhase::Ended => (phase, ServiceAction::ReportStopped),
    }
}

/// A stop is always announced before the service ends on account of it, and a service that was
/// asked to stop has ended ten seconds later: the process is cut off only then.
pub proof fn law_stop_protocol(asked: u128, worker_ended: bool, later_ended: bool, now: u128)
    requires
        asked + STOP_NANOS <= u128::MAX,
    ensures
        ({
            let (phase, action) = service_step(ServicePhase::Running, true, worker_ended, asked);
            let (next, second) = service_step(phase, true, later_ended, now);
            &&& action == ServiceAction::ReportStopping
            &&& now >= asked + STOP_NANOS ==> next == ServicePhase::Ended
            &&& second == ServiceAction::ForceExit <==> !later_ended && now >= asked + STOP_NANOS
        }),
{
}

/// The registered service is told what it was registered with, each value behind its own switch.
pub proof fn law_registered_arguments(o: InstallOptions)
    ensures
        ({
            let a = launch_args(o);
            &&& a.len() >= 9
            &&& a[0] == "--service"@
            &&& a[1] == "--index"@ && a[2] == o.index@
            &&& a[3] == "--volume"@ && a[4] == o.volume@
            &&& a[5] == "--pipe"@ && a[6] == o.pipe@
            &&& a[7] == "--save-interval-secs"@ && a[8] == text::decimal(o.save_interval_secs as nat)
            &&& o.full_stat ==> a.contains("--full-stat"@)
            &&& o.no_everything_ipc ==> a.contains("--no-everything-ipc"@)
            &&& o.no_backfill ==> a.contains("--no-backfill"@)
            &&& o.max_scan_threads != 4 ==> exists|k: int|
                0 <= k < a.len() - 1 && a[k] == "--max-scan-threads"@ && #[trigger] a[k + 1]
                    == text::decimal(o.max_scan_threads as nat)
        }),
{
    let a = launch_args(o);
    let f = flag(o.full_stat, "--full-stat"@);
    let t = if o.max_scan_threads != 4 {
        seq!["--max-scan-threads"@, text::decimal(o.max_scan_threads as nat)]
    } else {
        Seq::empty()
    };
    let e = flag(o.no_everything_ipc, "--no-everything-ipc"@);
    let b = flag(o.no_backfill, "--no-backfill"@);
    if o.full_stat {
        assert(a[9] == f[0]);
    }
    if o.max_scan_threads != 4 {
        let k = 9 + f.len() as int;
        assert(a[k] == t[0]);
        assert(a[k + 1] == t[1]);
    }
    if o.no_everything_ipc {
        assert(a[9 + f.len() as int + t.len() as int] == e[0]);
    }
    if o.no_backfill {
        assert(a[9 + f.len() as int + t.len() as int + e.len() as int] == b[0]);
    }
}

/// Each excluded directory that is not blank is named once, behind its own switch, as it was given.
pub proof fn law_registered_exclusions(dirs: Seq<Seq<char>>, k: int)
    ensures
        ({
            let kept = dirs.filter(|d: Seq<char>| text::trimmed(d).len() > 0);
            &&& exclude_args(dirs).len() == 2 * kept.len()
            &&& 0 <= k < kept.len() ==> exclude_args(dirs)[2 * k] == "--exclude-dir"@ && exclude_args(
                dirs,
            )[2 * k + 1] == kept[k]
        }),
    decreases dirs.len(),
{
    reveal(Seq::filter);
    if dirs.len() > 0 {
        law_registered_exclusions(dirs.drop_last(), k);
    }
}

/// A service that is not asked to stop runs until its work ends; once it is asked it has ten
/// seconds.
pub proof fn law_life_of_the_service(now: u128, deadline: u128)
    requires
        now + 10_000_000_000 <= u128::MAX,
    ensures
        service_step(ServicePhase::Running, false, false, now) == (
            ServicePhase::Running,
            ServiceAction::Wait(300),
        ),
        service_step(ServicePhase::Running, false, true, now) == (
            ServicePhase::Ended,
            ServiceAction::ReportStopped,
        ),
        service_step(ServicePhase::Running, true, false, now) == (
            ServicePhase::Stopping { deadline: (now + 10_000_000_000) as u128 },
            ServiceAction::ReportStopping,
        ),
        service_step(ServicePhase::Stopping { deadline }, true, true, now) == (
            ServicePhase::Ended,
            ServiceAction::ReportStopped,
        ),
        now < deadline ==> service_step(ServicePhase::Stopping { deadline }, true, false, now) == (
            ServicePhase::Stopping { deadline },
            ServiceAction::Wait(100),
        ),
        now >= deadline ==> service_step(ServicePhase::Stopping { deadline }, true, false, now).1
            == ServiceAction::ForceExit,
{
}

} // verus!
