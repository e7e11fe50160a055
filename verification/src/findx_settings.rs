//! The settings of the window program, and how it finds and starts the index service.
use vstd::prelude::*;
use crate::elevate;
use crate::paths::{self, PathStyle};
use crate::text;

verus! {

/// How the window program and the service work together.
#[derive(Debug, Clone, Copy, PartialEq, Eq, Structural)]
pub enum RunMode {
    /// The service manager starts the service.
    Service,
    /// The service runs in the session of the user.
    Standalone,
}

impl Default for RunMode {
    fn default() -> (r: RunMode)
        ensures
            r == RunMode::Service,
    {
        RunMode::Service
    }
}

#[derive(Debug, Clone)]
pub struct FindxGuiSettings {
    pub index_path: String,
    pub volume: String,
    pub pipe_name: String,
    pub pinyin_default: bool,
    pub service_exe_path: String,
    pub search_limit: u32,
    pub auto_start_service: bool,
    pub first_index_full_metadata: bool,
    pub run_mode: RunMode,
    pub drives: Vec<String>,
    pub excluded_dirs: Vec<String>,
    pub enable_metadata_backfill: bool,
    pub enable_everything_ipc: bool,
    pub save_interval_secs: u64,
}

pub struct FindxGuiSettingsView {
    pub index_path: Seq<char>,
    pub volume: Seq<char>,
    pub pipe_name: Seq<char>,
    pub pinyin_default: bool,
    pub service_exe_path: Seq<char>,
    pub search_limit: u32,
    pub auto_start_service: bool,
    pub first_index_full_metadata: bool,
    pub run_mode: RunMode,
    pub drives: Seq<Seq<char>>,
    pub excluded_dirs: Seq<Seq<char>>,
    pub enable_metadata_backfill: bool,
    pub enable_everything_ipc: bool,
    pub save_interval_secs: u64,
}

impl View for FindxGuiSettings {
    type V = FindxGuiSettingsView;

    open spec fn view(&self) -> FindxGuiSettingsView {
        FindxGuiSettingsView {
            index_path: self.index_path@,
            volume: self.volume@,
            pipe_name: self.pipe_name@,
            pinyin_default: self.pinyin_default,
            service_exe_path: self.service_exe_path@,
            search_limit: self.search_limit,
            auto_start_service: self.auto_start_service,
            first_index_full_metadata: self.first_index_full_metadata,
            run_mode: self.run_mode,
            drives: text::texts(self.drives@),
            excluded_dirs: text::texts(self.excluded_dirs@),
            enable_metadata_backfill: self.enable_metadata_backfill,
            enable_everything_ipc: self.enable_everything_ipc,
            save_interval_secs: self.save_interval_secs,
        }
    }
}

pub open spec fn default_settings() -> FindxGuiSettingsView {
    FindxGuiSettingsView {
        index_path: "index.bin"@,
        volume: "C:"@,
        pipe_name: "findx2"@,
        pinyin_default: true,
        service_exe_path: Seq::empty(),
        search_limit: 5000,
        auto_start_service: true,
        first_index_full_metadata: false,
        run_mode: RunMode::Service,
        drives: Seq::empty(),
        excluded_dirs: Seq::empty(),
        enable_metadata_backfill: true,
        enable_everything_ipc: true,
        save_interval_secs: 30,
    }
}

impl Default for FindxGuiSettings {
    fn default() -> (r: FindxGuiSettings)
        ensures
            r@ == default_settings(),
    {
        let s = FindxGuiSettings {
            index_path: text::copied("index.bin"),
            volume: text::copied("C:"),
            pipe_name: text::copied("findx2"),
            pinyin_default: true,
            service_exe_path: String::new(),
            search_limit: 5000,
            auto_start_service: true,
            first_index_full_metadata: false,
            run_mode: RunMode::Service,
            drives: Vec::new(),
            excluded_dirs: Vec::new(),
            enable_metadata_backfill: true,
            enable_everything_ipc: true,
            save_interval_secs: 30,
        };
        assert(text::texts(s.drives@) =~= Seq::empty());
        assert(text::texts(s.excluded_dirs@) =~= Seq::empty());
        s
    }
}

// ---- where things are ---------------------------------------------------------------------

/// The index: the path of the settings, below the directory of the program where it is relative.
pub open spec fn index_path_of(style: PathStyle, base: Seq<char>, index_path: Seq<char>) -> Seq<
    char,
> {
    paths::joined_path(style, base, text::trimmed(index_path))
}

pub fn resolve_index_path(style: PathStyle, base: &str, settings: &FindxGuiSettings) -> (r: String)
    ensures
        r@ == index_path_of(style, base@, settings@.index_path),
{
    let p = text::trim(&settings.index_path);
    if paths::is_absolute(style, &p) {
        return p;
    }
    paths::join(style, base, &p)
}

/// The settings of an installed program that has none of its own yet: the index lies in the
/// common data directory, which `program_data` names where it is known.
pub open spec fn installed_settings(program_data: Seq<char>) -> FindxGuiSettingsView {
    FindxGuiSettingsView {
        index_path: paths::joined_path(
            PathStyle::Windows,
            paths::joined_path(PathStyle::Windows, program_data, "FindX"@),
            "index.bin"@,
        ),
        run_mode: RunMode::Service,
        auto_start_service: true,
        ..default_settings()
    }
}

/// The settings for an installed program, where the marker of the installer and the common data
/// directory are there.
pub fn settings_for_nsis_installed_layout(marker: bool, program_data: &Option<String>) -> (r:
    Option<FindxGuiSettings>)
    ensures
        match r {
            Some(s) => marker && *program_data is Some && s@ == installed_settings(
                program_data->0@,
            ),
            None => !marker || *program_data is None,
        },
{
    if !marker {
        return None;
    }
    match program_data {
        Some(pd) => {
            let dir = paths::join(PathStyle::Windows, pd, "FindX");
            let index = paths::join(PathStyle::Windows, &dir, "index.bin");
            let mut s = FindxGuiSettings::default();
            s.index_path = index;
            s.run_mode = RunMode::Service;
            s.auto_start_service = true;
            Some(s)
        },
        None => None,
    }
}

/// The settings still point to an index beside the program: the path is empty, relative, or that
/// very file.
pub open spec fn leftover(base: Seq<char>, index_path: Seq<char>) -> bool {
    let p = text::trimmed(index_path);
    p.len() == 0 || !paths::absolute(PathStyle::Windows, p) || paths::same_path(
        PathStyle::Windows,
        index_path_of(PathStyle::Windows, base, index_path),
        paths::joined_path(PathStyle::Windows, base, "index.bin"@),
    )
}

/// The settings after the move to the layout of the installer; the second part says whether they
/// changed and are to be saved.
pub open spec fn migrated(
    s: FindxGuiSettingsView,
    base: Seq<char>,
    installed: Option<FindxGuiSettingsView>,
) -> (FindxGuiSettingsView, bool) {
    match installed {
        None => (s, false),
        Some(i) => if !leftover(base, s.index_path) || (paths::same_path(
            PathStyle::Windows,
            index_path_of(PathStyle::Windows, base, s.index_path),
            i.index_path,
        ) && s.run_mode == RunMode::Service) {
            (s, false)
        } else {
            (
                FindxGuiSettingsView {
                    index_path: i.index_path,
                    run_mode: RunMode::Service,
                    auto_start_service: true,
                    ..s
                },
                true,
            )
        },
    }
}

pub fn migrate_installed_layout_settings(
    s: FindxGuiSettings,
    base: &str,
    installed: Option<FindxGuiSettings>,
) -> (r: (FindxGuiSettings, bool))
    ensures
        (r.0@, r.1) == migrated(s@, base@, opt_settings(installed)),
{
    let i = match installed {
        Some(i) => i,
        None => {
            return (s, false);
        },
    };
    let resolved = resolve_index_path(PathStyle::Windows, base, &s);
    let p = text::trim(&s.index_path);
    let beside = paths::join(PathStyle::Windows, base, "index.bin");
    let left = p.as_str().is_empty() || !paths::is_absolute(PathStyle::Windows, &p)
        || paths::equal_paths(PathStyle::Windows, &resolved, &beside);
    if !left {
        return (s, false);
    }
    let service = match s.run_mode {
        RunMode::Service => true,
        RunMode::Standalone => false,
    };
    if paths::equal_paths(PathStyle::Windows, &resolved, &i.index_path) && service {
        return (s, false);
    }
    let mut s = s;
    s.index_path = i.index_path;
    s.run_mode = RunMode::Service;
    s.auto_start_service = true;
    (s, true)
}

pub open spec fn opt_settings(s: Option<FindxGuiSettings>) -> Option<FindxGuiSettingsView> {
    match s {
        Some(i) => Some(i@),
        None => None,
    }
}

/// The settings that are used, and whether they are to be saved: without a file those of the
/// installer, else the default ones; those of a file after the move to the installer's layout,
/// which there is on Windows alone.
pub open spec fn loaded(
    windows: bool,
    base: Seq<char>,
    file: Option<Result<FindxGuiSettingsView, Seq<char>>>,
    installed: Option<FindxGuiSettingsView>,
) -> Result<(FindxGuiSettingsView, bool), Seq<char>> {
    match file {
        None => match installed {
            Some(i) if windows => Ok((i, false)),
            _ => Ok((default_settings(), false)),
        },
        Some(Err(e)) => Err(e),
        Some(Ok(s)) => if windows {
            Ok(migrated(s, base, installed))
        } else {
            Ok((s, false))
        },
    }
}

pub open spec fn file_view(file: Option<Result<FindxGuiSettings, String>>) -> Option<
    Result<FindxGuiSettingsView, Seq<char>>,
> {
    match file {
        None => None,
        Some(Ok(s)) => Some(Ok(s@)),
        Some(Err(e)) => Some(Err(e@)),
    }
}

pub open spec fn loaded_view(r: Result<(FindxGuiSettings, bool), String>) -> Result<
    (FindxGuiSettingsView, bool),
    Seq<char>,
> {
    match r {
        Ok((s, b)) => Ok((s@, b)),
        Err(e) => Err(e@),
    }
}

/// `file` is what the settings file holds, or why it cannot be read, where there is one.
pub fn load_findx_settings(
    windows: bool,
    base: &str,
    file: Option<Result<FindxGuiSettings, String>>,
    installed: Option<FindxGuiSettings>,
) -> (r: Result<(FindxGuiSettings, bool), String>)
    ensures
        loaded_view(r) == loaded(windows, base@, file_view(file), opt_settings(installed)),
{
    match file {
        None => {
            if windows {
                match installed {
                    Some(i) => Ok((i, false)),
                    None => Ok((FindxGuiSettings::default(), false)),
                }
            } else {
                Ok((FindxGuiSettings::default(), false))
            }
        },
        Some(Err(e)) => Err(e),
        Some(Ok(s)) => {
            if windows {
                Ok(migrate_installed_layout_settings(s, base, installed))
            } else {
                Ok((s, false))
            }
        },
    }
}

/// Moving twice is moving once: settings that were moved stay as they are.
pub proof fn law_migration_settles(
    s: FindxGuiSettingsView,
    base: Seq<char>,
    installed: FindxGuiSettingsView,
)
    requires
        paths::absolute(PathStyle::Windows, installed.index_path),
        text::trimmed(installed.index_path) == installed.index_path,
    ensures
        migrated(migrated(s, base, Some(installed)).0, base, Some(installed)) == (
            migrated(s, base, Some(installed)).0,
            false,
        ),
{
}

// ---- programs -----------------------------------------------------------------------------

/// Where the service program may lie below `base`.
pub open spec fn service_paths(style: PathStyle, base: Seq<char>) -> Seq<Seq<char>> {
    name_paths(
        style,
        base,
        if style == PathStyle::Windows {
            "findx2-service.exe"@
        } else {
            "findx2-service"@
        },
    )
}

/// A program of the given name in the directory `base` or in its `resources/bin`.
pub open spec fn name_paths(style: PathStyle, base: Seq<char>, name: Seq<char>) -> Seq<Seq<char>> {
    seq![
        paths::joined_path(style, base, name),
        paths::joined_path(
            style,
            paths::joined_path(style, paths::joined_path(style, base, "resources"@), "bin"@),
            name,
        ),
    ]
}

pub fn cli_name_paths(style: PathStyle, base: &str, name: &str) -> (r: Vec<String>)
    ensures
        text::texts(r@) == name_paths(style, base@, name@),
{
    let res = paths::join(style, base, "resources");
    let bin = paths::join(style, &res, "bin");
    let mut v: Vec<String> = Vec::new();
    v.push(paths::join(style, base, name));
    v.push(paths::join(style, &bin, name));
    assert(text::texts(v@) =~= name_paths(style, base@, name@));
    v
}

pub fn service_exe_search_paths(style: PathStyle, base: &str) -> (r: Vec<String>)
    ensures
        text::texts(r@) == service_paths(style, base@),
{
    match style {
        PathStyle::Windows => cli_name_paths(style, base, "findx2-service.exe"),
        PathStyle::Unix => cli_name_paths(style, base, "findx2-service"),
    }
}

/// The first of the paths that is among those that exist.
pub open spec fn first_present(cands: Seq<Seq<char>>, present: Seq<Seq<char>>) -> Option<Seq<char>>
    decreases cands.len(),
{
    if cands.len() == 0 {
        None
    } else {
        match first_present(cands.drop_last(), present) {
            Some(p) => Some(p),
            None => if present.contains(cands.last()) {
                Some(cands.last())
            } else {
                None
            },
        }
    }
}

fn is_present(present: &Vec<String>, p: &str) -> (r: bool)
    ensures
        r == text::texts(present@).contains(p@),
{
    let ghost all = text::texts(present@);
    let mut i: usize = 0;
    while i < present.len()
        invariant
            i <= present.len(),
            all == text::texts(present@),
            forall|k: int| 0 <= k < i ==> #[trigger] all[k] != p@,
        decreases present.len() - i,
    {
        if text::same_text(&present[i], p) {
            assert(all[i as int] == p@);
            return true;
        }
        assert(all[i as int] == present@[i as int]@);
        i += 1;
    }
    assert(!all.contains(p@)) by {
        if all.contains(p@) {
            let k = choose|k: int| 0 <= k < all.len() && all[k] == p@;
            assert(all[k] != p@);
        }
    }
    false
}

fn find_present(cands: &Vec<String>, present: &Vec<String>) -> (r: Option<String>)
    ensures
        (match r {
            Some(s) => Some(s@),
            None => None,
        }) == first_present(text::texts(cands@), text::texts(present@)),
{
    let ghost all = text::texts(cands@);
    let ghost have = text::texts(present@);
    let mut i: usize = 0;
    proof {
        assert(all.take(0) =~= Seq::empty());
    }
    while i < cands.len()
        invariant
            i <= cands.len(),
            all == text::texts(cands@),
            have == text::texts(present@),
            first_present(all.take(i as int), have) is None,
        decreases cands.len() - i,
    {
        proof {
            assert(all.take(i + 1).drop_last() =~= all.take(i as int));
            assert(all.take(i + 1).last() == cands@[i as int]@);
        }
        if is_present(present, &cands[i]) {
            proof {
                lemma_found(all, have, i + 1);
            }
            return Some(text::copied(&cands[i]));
        }
        i += 1;
    }
    assert(all.take(all.len() as int) =~= all);
    None
}

/// What is found among the first paths is what is found among all.
proof fn lemma_found(cands: Seq<Seq<char>>, present: Seq<Seq<char>>, i: int)
    requires
        0 <= i <= cands.len(),
        first_present(cands.take(i), present) is Some,
    ensures
        first_present(cands, present) == first_present(cands.take(i), present),
    decreases cands.len() - i,
{
    if i == cands.len() {
        assert(cands.take(i) =~= cands);
    } else {
        assert(cands.take(i + 1).drop_last() =~= cands.take(i));
        lemma_found(cands, present, i + 1);
    }
}

/// The service program: the path of the settings, which then must exist, else the first that
/// exists below `base`.
pub open spec fn service_exe(
    style: PathStyle,
    base: Seq<char>,
    custom: Seq<char>,
    present: Seq<Seq<char>>,
) -> Result<Seq<char>, Seq<char>> {
    let p = text::trimmed(custom);
    if p.len() > 0 {
        if present.contains(p) {
            Ok(p)
        } else {
            Err(
                "设置中的服务路径不存在: "@ + p
                    + "（请编译该配置、改为实际存在的路径，或清空此项以使用与 GUI 同目录下的 findx2-service.exe）"@,
            )
        }
    } else {
        match first_present(service_paths(style, base), present) {
            Some(s) => Ok(s),
            None => Err(
                "未找到 findx2-service.exe，请将可执行文件与 FindX2 同目录、resources\\bin 下，或于设置中指定存在的路径。"@,
            ),
        }
    }
}

/// Finds the service program; `present` holds those of the paths in question that exist.
pub fn resolve_service_exe(
    style: PathStyle,
    base: &str,
    settings: &FindxGuiSettings,
    present: &Vec<String>,
) -> (r: Result<String, String>)
    ensures
        text::texts_of(r) == service_exe(
            style,
            base@,
            settings@.service_exe_path,
            text::texts(present@),
        ),
{
    let custom = text::trim(&settings.service_exe_path);
    if !custom.as_str().is_empty() {
        if is_present(present, &custom) {
            return Ok(custom);
        }
        let mut e = text::copied("设置中的服务路径不存在: ");
        e.push_str(&custom);
        e.push_str(
            "（请编译该配置、改为实际存在的路径，或清空此项以使用与 GUI 同目录下的 findx2-service.exe）",
        );
        return Err(e);
    }
    let cands = service_exe_search_paths(style, base);
    match find_present(&cands, present) {
        Some(s) => Ok(s),
        None => Err(
            text::copied(
                "未找到 findx2-service.exe，请将可执行文件与 FindX2 同目录、resources\\bin 下，或于设置中指定存在的路径。",
            ),
        ),
    }
}

/// The names of the command line program, in the order in which they are looked for.
pub open spec fn cli_names(style: PathStyle) -> (Seq<char>, Seq<char>) {
    match style {
        PathStyle::Windows => ("findx2.exe"@, "fx.exe"@),
        PathStyle::Unix => ("findx2"@, "fx"@),
    }
}

/// The command line program: below `base`, else beside the service program.
pub open spec fn cli_exe(
    style: PathStyle,
    base: Seq<char>,
    custom: Seq<char>,
    present: Seq<Seq<char>>,
) -> Option<Seq<char>> {
    let names = cli_names(style);
    match first_present(
        name_paths(style, base, names.0) + name_paths(style, base, names.1),
        present,
    ) {
        Some(p) => Some(p),
        None => match service_exe(style, base, custom, present) {
            Ok(svc) => match paths::parent_of(style, svc) {
                Some(dir) => first_present(
                    seq![
                        paths::joined_path(style, dir, names.0),
                        paths::joined_path(style, dir, names.1),
                    ],
                    present,
                ),
                None => None,
            },
            Err(_) => None,
        },
    }
}

/// Finds the command line program; `present` holds those of the paths in question that exist.
pub fn resolve_cli_exe(
    style: PathStyle,
    base: &str,
    settings: &FindxGuiSettings,
    present: &Vec<String>,
) -> (r: Option<String>)
    ensures
        (match r {
            Some(s) => Some(s@),
            None => None,
        }) == cli_exe(style, base@, settings@.service_exe_path, text::texts(present@)),
{
    let (first, second) = match style {
        PathStyle::Windows => ("findx2.exe", "fx.exe"),
        PathStyle::Unix => ("findx2", "fx"),
    };
    let mut cands = cli_name_paths(style, base, first);
    let mut more = cli_name_paths(style, base, second);
    let ghost a = text::texts(cands@);
    let ghost b = text::texts(more@);
    cands.append(&mut more);
    proof {
        assert(text::texts(cands@) =~= a + b);
    }
    match find_present(&cands, present) {
        Some(p) => {
            return Some(p);
        },
        None => {},
    }
    match resolve_service_exe(style, base, settings, present) {
        Ok(svc) => {
            match paths::parent(style, &svc) {
                Some(dir) => {
                    let mut beside: Vec<String> = Vec::new();
                    beside.push(paths::join(style, &dir, first));
                    beside.push(paths::join(style, &dir, second));
                    proof {
                        assert(text::texts(beside@) =~= seq![
                            paths::joined_path(style, dir@, first@),
                            paths::joined_path(style, dir@, second@),
                        ]);
                    }
                    find_present(&beside, present)
                },
                None => None,
            }
        },
        Err(_) => None,
    }
}

/// What is found exists.
pub proof fn law_found_exists(cands: Seq<Seq<char>>, present: Seq<Seq<char>>)
    ensures
        first_present(cands, present) matches Some(p) ==> present.contains(p) && cands.contains(p),
        first_present(cands, present) is None ==> forall|k: int|
            0 <= k < cands.len() ==> !present.contains(#[trigger] cands[k]),
    decreases cands.len(),
{
    if cands.len() > 0 {
        let init = cands.drop_last();
        law_found_exists(init, present);
        match first_present(init, present) {
            Some(p) => {
                let k = choose|k: int| 0 <= k < init.len() && init[k] == p;
                assert(cands[k] == p);
            },
            None => {
                assert(cands[cands.len() - 1] == cands.last());
                assert forall|k: int|
                    0 <= k < cands.len() && first_present(cands, present) is None implies
                    !present.contains(#[trigger] cands[k]) by {
                    if k < init.len() {
                        assert(init[k] == cands[k]);
                    }
                }
            },
        }
    }
}

/// A path that the settings name and that does not exist is an error, even where the service
/// program lies beside the window program.
pub proof fn law_custom_service_path_is_binding(
    style: PathStyle,
    base: Seq<char>,
    custom: Seq<char>,
    present: Seq<Seq<char>>,
)
    requires
        text::trimmed(custom).len() > 0,
        !present.contains(text::trimmed(custom)),
    ensures
        service_exe(style, base, custom, present) is Err,
{
}

/// The first candidate that is there is taken.
pub proof fn law_first_candidate_wins(cands: Seq<Seq<char>>, present: Seq<Seq<char>>, i: int)
    requires
        0 <= i < cands.len(),
        present.contains(cands[i]),
        forall|j: int| 0 <= j < i ==> !present.contains(#[trigger] cands[j]),
    ensures
        first_present(cands, present) == Some(cands[i]),
    decreases cands.len(),
{
    let t = cands.drop_last();
    assert(cands.last() == cands[cands.len() - 1]);
    if i < t.len() {
        assert(t[i] == cands[i]);
        assert forall|j: int| 0 <= j < i implies !present.contains(#[trigger] t[j]) by {
            assert(t[j] == cands[j]);
        }
        law_first_candidate_wins(t, present, i);
    } else {
        law_found_exists(t, present);
        match first_present(t, present) {
            Some(p) => {
                let k = choose|k: int| 0 <= k < t.len() && t[k] == p;
                assert(!present.contains(cands[k]));
            },
            None => {},
        }
    }
}

/// What a program starts with: the index beside it, drive C, the usual pipe, 5000 hits, pinyin, the
/// service mode, its own start, and a save every half minute.
pub proof fn law_default_settings()
    ensures
        ({
            let s = default_settings();
            &&& s.index_path == "index.bin"@ && s.volume == "C:"@ && s.pipe_name == "findx2"@
            &&& s.pinyin_default && s.auto_start_service && s.enable_metadata_backfill
                && s.enable_everything_ipc
            &&& !s.first_index_full_metadata
            &&& s.search_limit == 5000 && s.save_interval_secs == 30
            &&& s.run_mode == RunMode::Service
            &&& s.drives.len() == 0 && s.excluded_dirs.len() == 0 && s.service_exe_path.len() == 0
        }),
{
}

/// Moving settings of an earlier layout changes the place of the index, the mode and the start, and
/// nothing else; settings with a place of their own stay as they are.
pub proof fn law_migration_touches_nothing_else(
    s: FindxGuiSettingsView,
    base: Seq<char>,
    installed: FindxGuiSettingsView,
)
    ensures
        ({
            let (m, moved) = migrated(s, base, Some(installed));
            &&& moved ==> m.index_path == installed.index_path && m.run_mode == RunMode::Service
                && m.auto_start_service && leftover(base, s.index_path)
            &&& !moved ==> m == s
            &&& m == (FindxGuiSettingsView {
                index_path: m.index_path,
                run_mode: m.run_mode,
                auto_start_service: m.auto_start_service,
                ..s
            })
        }),
        migrated(s, base, None) == (s, false),
{
}

/// The service and the command line program are looked for beside the program and then in its
/// resources, under their own names.
pub proof fn law_where_programs_are_looked_for(style: PathStyle, base: Seq<char>, name: Seq<char>)
    ensures
        name_paths(style, base, name).len() == 2,
        name_paths(style, base, name)[0] == paths::joined_path(style, base, name),
        service_paths(PathStyle::Windows, base) == name_paths(
            PathStyle::Windows,
            base,
            "findx2-service.exe"@,
        ),
        service_paths(PathStyle::Unix, base) == name_paths(PathStyle::Unix, base, "findx2-service"@),
        cli_names(PathStyle::Windows) == ("findx2.exe"@, "fx.exe"@),
        cli_names(PathStyle::Unix) == ("findx2"@, "fx"@),
{
}

/// The command line program is one of those that are there. Beside the window it wins over all
/// other places, by its long name before its short one.
pub proof fn law_command_line_program(
    style: PathStyle,
    base: Seq<char>,
    custom: Seq<char>,
    present: Seq<Seq<char>>,
)
    ensures
        cli_exe(style, base, custom, present) matches Some(p) ==> present.contains(p),
        ({
            let long = if style == PathStyle::Windows {
                "findx2.exe"@
            } else {
                "findx2"@
            };
            let short = if style == PathStyle::Windows {
                "fx.exe"@
            } else {
                "fx"@
            };
            let deep = paths::joined_path(
                style,
                paths::joined_path(style, base, "resources"@),
                "bin"@,
            );
            let a = paths::joined_path(style, base, long);
            let b = paths::joined_path(style, deep, long);
            let c = paths::joined_path(style, base, short);
            let d = paths::joined_path(style, deep, short);
            &&& present.contains(a) ==> cli_exe(style, base, custom, present) == Some(a)
            &&& !present.contains(a) && present.contains(b) ==> cli_exe(style, base, custom, present)
                == Some(b)
            &&& !present.contains(a) && !present.contains(b) && present.contains(c) ==> cli_exe(
                style,
                base,
                custom,
                present,
            ) == Some(c)
            &&& !present.contains(a) && !present.contains(b) && !present.contains(c)
                && present.contains(d) ==> cli_exe(style, base, custom, present) == Some(d)
            &&& !present.contains(a) && !present.contains(b) && !present.contains(c)
                && !present.contains(d) ==> match service_exe(style, base, custom, present) {
                Err(_) => cli_exe(style, base, custom, present) is None,
                Ok(svc) => match paths::parent_of(style, svc) {
                    None => cli_exe(style, base, custom, present) is None,
                    Some(dir) => {
                        let e = paths::joined_path(style, dir, long);
                        let f = paths::joined_path(style, dir, short);
                        cli_exe(style, base, custom, present) == (if present.contains(e) {
                            Some(e)
                        } else if present.contains(f) {
                            Some(f)
                        } else {
                            None
                        })
                    },
                },
            }
        }),
{
    let names = cli_names(style);
    let near = name_paths(style, base, names.0) + name_paths(style, base, names.1);
    assert(near.len() == 4);
    let t3 = near.drop_last();
    let t2 = t3.drop_last();
    let t1 = t2.drop_last();
    assert(t1.drop_last().len() == 0);
    assert(first_present(t1.drop_last(), present) is None);
    assert(t1.last() == near[0] && t2.last() == near[1] && t3.last() == near[2] && near.last()
        == near[3]);
    reveal_with_fuel(first_present, 5);
    if let Ok(svc) = service_exe(style, base, custom, present) {
        if let Some(dir) = paths::parent_of(style, svc) {
            let v = seq![
                paths::joined_path(style, dir, names.0),
                paths::joined_path(style, dir, names.1),
            ];
            assert(v.drop_last().last() == v[0] && v.last() == v[1]);
            assert(v.drop_last().drop_last().len() == 0);
        }
    }
}

/// An installed program keeps its index below the data of all programs and runs its service by
/// itself; all else is as without settings.
pub proof fn law_installed_settings(program_data: Seq<char>)
    ensures
        ({
            let s = installed_settings(program_data);
            let d = default_settings();
            &&& s.index_path == paths::joined_path(
                PathStyle::Windows,
                paths::joined_path(PathStyle::Windows, program_data, "FindX"@),
                "index.bin"@,
            )
            &&& s.run_mode == RunMode::Service && s.auto_start_service
            &&& s.volume == d.volume && s.pipe_name == d.pipe_name
            &&& s.pinyin_default == d.pinyin_default && s.service_exe_path == d.service_exe_path
            &&& s.search_limit == d.search_limit
            &&& s.first_index_full_metadata == d.first_index_full_metadata
            &&& s.drives == d.drives && s.excluded_dirs == d.excluded_dirs
            &&& s.enable_metadata_backfill == d.enable_metadata_backfill
            &&& s.enable_everything_ipc == d.enable_everything_ipc
            &&& s.save_interval_secs == d.save_interval_secs
        }),
{
}

} // verus!
