//! The command line of the service and what it asks for.
use vstd::prelude::*;
use crate::text;

verus! {

/// The arguments of the service.
#[derive(Debug, Clone)]
pub struct Cli {
    /// Run under the service manager.
    pub service: bool,
    /// Only host the compatibility window, in a user's session.
    pub everything_host: bool,
    pub index: String,
    pub volume: String,
    pub pipe: String,
    pub save_interval_secs: u64,
    pub full_stat: bool,
    pub max_scan_threads: usize,
    pub no_everything_ipc: bool,
    pub no_backfill: bool,
    pub exclude_dir: Vec<String>,
    pub cmd: Option<ServiceCmd>,
}

/// The commands of the service.
#[derive(Debug, Clone, Copy, PartialEq, Eq, Structural)]
pub enum ServiceCmd {
    /// Register the service.
    Install,
    /// Remove the service.
    Uninstall,
}

impl Default for Cli {
    /// The arguments of an empty command line.
    fn default() -> (r: Cli)
        ensures
            !r.service && !r.everything_host,
            r.index@ == "index.bin"@,
            r.volume@ == "C:"@,
            r.pipe@ == "findx2"@,
            r.save_interval_secs == 30,
            !r.full_stat,
            r.max_scan_threads == 4,
            !r.no_everything_ipc && !r.no_backfill,
            r.exclude_dir@ == Seq::<String>::empty(),
            r.cmd is None,
    {
        Cli {
            service: false,
            everything_host: false,
            index: text::copied("index.bin"),
            volume: text::copied("C:"),
            pipe: text::copied("findx2"),
            save_interval_secs: 30,
            full_stat: false,
            max_scan_threads: 4,
            no_everything_ipc: false,
            no_backfill: false,
            exclude_dir: Vec::new(),
            cmd: None,
        }
    }
}

/// The kind of system that the service runs on.
#[derive(Debug, Clone, Copy, PartialEq, Eq, Structural)]
pub enum Platform {
    Windows,
    Unix,
    Other,
}

/// What a command line asks for.
#[derive(Debug, Clone, Copy, PartialEq, Eq, Structural)]
pub enum Task {
    Install,
    Uninstall,
    EverythingHost,
    Service,
    Foreground,
}

/// The task of a command line: a command goes before the modes, and the window before the service.
/// Only Windows knows commands and modes.
pub open spec fn task_of(cli: Cli, platform: Platform) -> Option<Task> {
    match platform {
        Platform::Windows => Some(
            match cli.cmd {
                Some(ServiceCmd::Install) => Task::Install,
                Some(ServiceCmd::Uninstall) => Task::Uninstall,
                None => if cli.everything_host {
                    Task::EverythingHost
                } else if cli.service {
                    Task::Service
                } else {
                    Task::Foreground
                },
            },
        ),
        Platform::Unix => if cli.cmd is Some {
            None
        } else {
            Some(Task::Foreground)
        },
        Platform::Other => None,
    }
}

pub fn choose_task(cli: &Cli, platform: Platform) -> (r: Result<Task, String>)
    ensures
        match r {
            Ok(t) => task_of(*cli, platform) == Some(t),
            Err(e) => task_of(*cli, platform) is None && e@ == (if platform == Platform::Unix {
                "install/uninstall 仅支持 Windows 服务"@
            } else {
                "findx2-service 不支持当前平台"@
            }),
        },
{
    match platform {
        Platform::Windows => {
            match cli.cmd {
                Some(ServiceCmd::Install) => Ok(Task::Install),
                Some(ServiceCmd::Uninstall) => Ok(Task::Uninstall),
                None => if cli.everything_host {
                    Ok(Task::EverythingHost)
                } else if cli.service {
                    Ok(Task::Service)
                } else {
                    Ok(Task::Foreground)
                },
            }
        },
        Platform::Unix => {
            if cli.cmd.is_some() {
                Err(text::copied("install/uninstall 仅支持 Windows 服务"))
            } else {
                Ok(Task::Foreground)
            }
        },
        Platform::Other => Err(text::copied("findx2-service 不支持当前平台")),
    }
}

/// On Windows a command wins over the switches, and the helper over the service; elsewhere there is
/// nothing but running in the foreground.
pub proof fn law_tasks(cli: Cli)
    ensures
        cli.cmd == Some(ServiceCmd::Install) ==> task_of(cli, Platform::Windows) == Some(
            Task::Install,
        ),
        cli.cmd == Some(ServiceCmd::Uninstall) ==> task_of(cli, Platform::Windows) == Some(
            Task::Uninstall,
        ),
        cli.cmd is None && cli.everything_host ==> task_of(cli, Platform::Windows) == Some(
            Task::EverythingHost,
        ),
        cli.cmd is None && !cli.everything_host && cli.service ==> task_of(cli, Platform::Windows)
            == Some(Task::Service),
        cli.cmd is None && !cli.everything_host && !cli.service ==> task_of(cli, Platform::Windows)
            == Some(Task::Foreground),
        cli.cmd is None ==> task_of(cli, Platform::Unix) == Some(Task::Foreground),
        cli.cmd is Some ==> task_of(cli, Platform::Unix) is None,
        task_of(cli, Platform::Other) is None,
{
}

} // verus!
