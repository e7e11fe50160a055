//! When the pages of the window program are built again before it is compiled.
use vstd::prelude::*;
use crate::text;

verus! {

/// The files beside the sources whose change asks for a new build.
pub fn watched_files() -> (r: Vec<&'static str>)
    ensures
        r@.map_values(|s: &'static str| s@) == seq![
            "package.json"@,
            "package-lock.json"@,
            "vite.config.ts"@,
            "tsconfig.json"@,
            "index.html"@,
        ],
{
    let v = vec![
        "package.json",
        "package-lock.json",
        "vite.config.ts",
        "tsconfig.json",
        "index.html",
    ];
    assert(v@.map_values(|s: &'static str| s@) =~= seq![
        "package.json"@,
        "package-lock.json"@,
        "vite.config.ts"@,
        "tsconfig.json"@,
        "index.html"@,
    ]);
    v
}

/// A file was changed after `cutoff`; a file whose time is not known does not count.
pub open spec fn newer(times: Seq<Option<u128>>, cutoff: u128) -> bool {
    exists|i: int| 0 <= i < times.len() && #[trigger] times[i] is Some && times[i]->0 > cutoff
}

fn has_newer(times: &Vec<Option<u128>>, cutoff: u128) -> (r: bool)
    ensures
        r == newer(times@, cutoff),
{
    let mut i: usize = 0;
    while i < times.len()
        invariant
            i <= times.len(),
            forall|k: int| 0 <= k < i ==> !(#[trigger] times@[k] is Some && times@[k]->0 > cutoff),
        decreases times.len() - i,
    {
        match times[i] {
            Some(t) => {
                if t > cutoff {
                    assert(times@[i as int] is Some);
                    return true;
                }
            },
            None => {},
        }
        i += 1;
    }
    false
}

/// The pages are out of date: they are not there, or one of the files beside the sources or of
/// the sources themselves is newer. Times are nanoseconds since 1970.
pub fn frontend_out_of_date(
    built: Option<u128>,
    watched: &Vec<Option<u128>>,
    sources: &Vec<Option<u128>>,
) -> (r: bool)
    ensures
        r == (match built {
            None => true,
            Some(t) => newer(watched@, t) || newer(sources@, t),
        }),
{
    match built {
        None => true,
        Some(t) => has_newer(watched, t) || has_newer(sources, t),
    }
}

/// What is done about the pages.
#[derive(Debug, Clone, Copy, PartialEq, Eq, Structural)]
pub enum FrontendPlan {
    /// They are left alone.
    Skip,
    /// They are left alone although they are not there, with a warning.
    SkipWithWarning,
    Build,
}

/// The variable `SKIP_FINDX_GUI_FRONTEND` with the value 1 leaves the pages alone.
pub fn maybe_build_gui_frontend(skip: &Option<String>, pages_there: bool, out_of_date: bool) -> (r:
    FrontendPlan)
    ensures
        r == (if *skip matches Some(s) && s@ == "1"@ {
            if pages_there {
                FrontendPlan::Skip
            } else {
                FrontendPlan::SkipWithWarning
            }
        } else if out_of_date {
            FrontendPlan::Build
        } else {
            FrontendPlan::Skip
        }),
{
    let skipped = match skip {
        Some(s) => text::same_text(s, "1"),
        None => false,
    };
    if skipped {
        if pages_there {
            FrontendPlan::Skip
        } else {
            FrontendPlan::SkipWithWarning
        }
    } else if out_of_date {
        FrontendPlan::Build
    } else {
        FrontendPlan::Skip
    }
}

/// The package manager's program.
pub fn npm_cmd(windows: bool) -> (r: &'static str)
    ensures
        r@ == (if windows {
            "npm.cmd"@
        } else {
            "npm"@
        }),
{
    if windows {
        "npm.cmd"
    } else {
        "npm"
    }
}

/// Pages that were built after everything else was changed are not built again.
pub proof fn law_fresh_pages_stay(built: u128, watched: Seq<Option<u128>>, sources: Seq<Option<u128>>)
    requires
        forall|i: int| 0 <= i < watched.len() ==> (#[trigger] watched[i] matches Some(t) ==> t <= built),
        forall|i: int| 0 <= i < sources.len() ==> (#[trigger] sources[i] matches Some(t) ==> t <= built),
    ensures
        !newer(watched, built),
        !newer(sources, built),
{
}

} // verus!
