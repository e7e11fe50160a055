//! The state of the index as the window shows it, put together from the service, the files on
//! disk and what the program itself is doing.
use vstd::prelude::*;
use crate::findx_settings::{self, FindxGuiSettings};
use crate::paths::{self, PathStyle};
use crate::text;

verus! {

/// What the progress file of a build says.
#[derive(Debug)]
pub struct IndexingProgressSnap {
    pub phase: Option<String>,
    pub volumes_total: Option<u64>,
    pub volumes_done: Option<u64>,
    pub entries_indexed: Option<u64>,
    pub current_volume: Option<String>,
    pub message: Option<String>,
}

pub struct ProgressView {
    pub phase: Option<Seq<char>>,
    pub volumes_total: Option<u64>,
    pub volumes_done: Option<u64>,
    pub entries_indexed: Option<u64>,
    pub current_volume: Option<Seq<char>>,
    pub message: Option<Seq<char>>,
}

impl View for IndexingProgressSnap {
    type V = ProgressView;

    open spec fn view(&self) -> ProgressView {
        ProgressView {
            phase: text::opt_view(self.phase),
            volumes_total: self.volumes_total,
            volumes_done: self.volumes_done,
            entries_indexed: self.entries_indexed,
            current_volume: text::opt_view(self.current_volume),
            message: text::opt_view(self.message),
        }
    }
}

/// The text that a JSON object in these bytes holds under the key.
pub uninterp spec fn json_text(b: Seq<u8>, key: Seq<char>) -> Option<Seq<char>>;

/// The whole number that a JSON object in these bytes holds under the key.
pub uninterp spec fn json_number(b: Seq<u8>, key: Seq<char>) -> Option<u64>;

/// `serde_json::from_slice`, `Value::get` and `Value::as_str`: a function of the bytes and the
/// key. There is none where the bytes are no JSON or hold no text there.
#[verifier::external_body]
fn text_field(b: &[u8], key: &str) -> (r: Option<String>)
    ensures
        text::opt_view(r) == json_text(b@, key@),
{
    let v: serde_json::Value = serde_json::from_slice(b).ok()?;
    v.get(key)?.as_str().map(String::from)
}

/// `serde_json::from_slice`, `Value::get` and `Value::as_u64`: a function of the bytes and the
/// key. There is none where the bytes are no JSON or hold no such number there.
#[verifier::external_body]
fn number_field(b: &[u8], key: &str) -> (r: Option<u64>)
    ensures
        r == json_number(b@, key@),
{
    let v: serde_json::Value = serde_json::from_slice(b).ok()?;
    v.get(key)?.as_u64()
}

/// What a progress file says; nothing where there is none.
pub open spec fn progress_in(file: Option<Seq<u8>>) -> ProgressView {
    match file {
        None => ProgressView {
            phase: None,
            volumes_total: None,
            volumes_done: None,
            entries_indexed: None,
            current_volume: None,
            message: None,
        },
        Some(b) => ProgressView {
            phase: json_text(b, "phase"@),
            volumes_total: json_number(b, "volumes_total"@),
            volumes_done: json_number(b, "volumes_completed"@),
            entries_indexed: json_number(b, "entries_indexed"@),
            current_volume: json_text(b, "current_volume"@),
            message: json_text(b, "message"@),
        },
    }
}

/// Reads the bytes of the progress file, where it could be read.
pub fn load_indexing_progress_snap(file: &Option<Vec<u8>>) -> (r: IndexingProgressSnap)
    ensures
        r@ == progress_in(
            match *file {
                Some(b) => Some(b@),
                None => None,
            },
        ),
{
    match file {
        None => IndexingProgressSnap {
            phase: None,
            volumes_total: None,
            volumes_done: None,
            entries_indexed: None,
            current_volume: None,
            message: None,
        },
        Some(v) => {
            let b = v.as_slice();
            IndexingProgressSnap {
                phase: text_field(b, "phase"),
                volumes_total: number_field(b, "volumes_total"),
                volumes_done: number_field(b, "volumes_completed"),
                entries_indexed: number_field(b, "entries_indexed"),
                current_volume: text_field(b, "current_volume"),
                message: text_field(b, "message"),
            }
        },
    }
}

/// The state that the window shows. What a build has come to is known only while one is under way.
#[derive(Debug)]
pub struct IndexStatus {
    pub indexing: bool,
    pub ready: bool,
    pub indexed_count: u64,
    pub metadata_ready: bool,
    pub backfill_done: u64,
    pub backfill_total: u64,
    pub indexing_phase: Option<String>,
    pub indexing_volumes_total: Option<u64>,
    pub indexing_volumes_done: Option<u64>,
    pub indexing_message: Option<String>,
    pub indexing_entries_indexed: Option<u64>,
    pub indexing_current_volume: Option<String>,
    /// The service is up and still reads its index.
    pub loading: bool,
    /// What the service is at while it loads, with numbers; older services do not say.
    pub loading_stage: Option<String>,
    pub loading_elapsed_secs: Option<u64>,
    pub last_error: Option<String>,
}

pub struct IndexStatusView {
    pub indexing: bool,
    pub ready: bool,
    pub indexed_count: u64,
    pub metadata_ready: bool,
    pub backfill_done: u64,
    pub backfill_total: u64,
    pub indexing_phase: Option<Seq<char>>,
    pub indexing_volumes_total: Option<u64>,
    pub indexing_volumes_done: Option<u64>,
    pub indexing_message: Option<Seq<char>>,
    pub indexing_entries_indexed: Option<u64>,
    pub indexing_current_volume: Option<Seq<char>>,
    pub loading: bool,
    pub loading_stage: Option<Seq<char>>,
    pub loading_elapsed_secs: Option<u64>,
    pub last_error: Option<Seq<char>>,
}

impl View for IndexStatus {
    type V = IndexStatusView;

    open spec fn view(&self) -> IndexStatusView {
        IndexStatusView {
            indexing: self.indexing,
            ready: self.ready,
            indexed_count: self.indexed_count,
            metadata_ready: self.metadata_ready,
            backfill_done: self.backfill_done,
            backfill_total: self.backfill_total,
            indexing_phase: text::opt_view(self.indexing_phase),
            indexing_volumes_total: self.indexing_volumes_total,
            indexing_volumes_done: self.indexing_volumes_done,
            indexing_message: text::opt_view(self.indexing_message),
            indexing_entries_indexed: self.indexing_entries_indexed,
            indexing_current_volume: text::opt_view(self.indexing_current_volume),
            loading: self.loading,
            loading_stage: text::opt_view(self.loading_stage),
            loading_elapsed_secs: self.loading_elapsed_secs,
            last_error: text::opt_view(self.last_error),
        }
    }
}

/// The part of the service's status that matters here.
#[derive(Debug)]
pub struct ServiceStatus {
    pub entry_count: u64,
    pub healthy: bool,
    pub metadata_ready: bool,
    pub backfill_done: u64,
    pub backfill_total: u64,
    pub loading: bool,
    pub loading_stage: Option<String>,
    pub loading_elapsed_secs: Option<u64>,
}

/// What asking the service brought.
#[derive(Debug)]
pub enum PipeAnswer {
    Status(ServiceStatus),
    /// A reply of another kind.
    Other,
    Failed(String),
    TimedOut,
}

/// What the program knows without the service.
#[derive(Debug)]
pub struct LocalFacts {
    pub windows: bool,
    /// A build runs in this process.
    pub building: bool,
    /// A build will start by itself.
    pub build_pending: bool,
    pub index_path: String,
    pub index_exists: bool,
    /// A progress file is there; it may be left over from a build that broke off.
    pub progress_file: bool,
}

/// A state without a service: nothing is indexed.
pub open spec fn offline(
    indexing: bool,
    snap: Option<ProgressView>,
    error: Seq<char>,
) -> IndexStatusView {
    IndexStatusView {
        indexing,
        ready: false,
        indexed_count: 0,
        metadata_ready: true,
        backfill_done: 0,
        backfill_total: 0,
        indexing_phase: match snap {
            Some(s) => s.phase,
            None => None,
        },
        indexing_volumes_total: match snap {
            Some(s) => s.volumes_total,
            None => None,
        },
        indexing_volumes_done: match snap {
            Some(s) => s.volumes_done,
            None => None,
        },
        indexing_message: match snap {
            Some(s) => s.message,
            None => None,
        },
        indexing_entries_indexed: match snap {
            Some(s) => s.entries_indexed,
            None => None,
        },
        indexing_current_volume: match snap {
            Some(s) => s.current_volume,
            None => None,
        },
        loading: false,
        loading_stage: None,
        loading_elapsed_secs: None,
        last_error: Some(error),
    }
}

/// The service is up and has an index: whatever else says so, no build is under way.
pub open spec fn service_alive(s: ServiceStatus) -> bool {
    s.healthy && !s.loading && s.entry_count > 0
}

/// There is neither an index nor a trace of a build, so the service is not asked.
pub open spec fn nothing_there(f: LocalFacts) -> bool {
    f.windows && !f.index_exists && !f.progress_file
}

/// A service with this status leaves the window showing a build: one is under way here and the
/// service has no index yet, or the service still loads.
pub open spec fn shows_indexing(f: LocalFacts, s: ServiceStatus) -> bool {
    ((f.building || f.build_pending) && !service_alive(s)) || s.loading
}

/// What is shown of a build: nothing where none is under way.
pub open spec fn shown_progress(indexing: bool, snap: ProgressView) -> Option<ProgressView> {
    if indexing {
        Some(snap)
    } else {
        None
    }
}

/// The state to show.
pub open spec fn status_of(
    f: LocalFacts,
    snap: ProgressView,
    answer: PipeAnswer,
) -> IndexStatusView {
    let active = f.building || f.build_pending;
    if !f.windows {
        offline(f.building, None, "FindX2 GUI 当前需 Windows."@)
    } else if nothing_there(f) {
        offline(
            false,
            None,
            "尚无索引 "@ + f.index_path@
                + "（首次启动会自动建索引；若以管理员启动仍失败请检查终端日志）"@,
        )
    } else {
        match answer {
            PipeAnswer::Status(s) => IndexStatusView {
                ready: s.healthy && !s.loading,
                indexed_count: s.entry_count,
                metadata_ready: s.metadata_ready,
                backfill_done: s.backfill_done,
                backfill_total: s.backfill_total,
                loading: s.loading,
                loading_stage: if s.loading {
                    text::opt_view(s.loading_stage)
                } else {
                    None
                },
                loading_elapsed_secs: if s.loading {
                    s.loading_elapsed_secs
                } else {
                    None
                },
                last_error: if s.loading {
                    Some(
                        "索引加载中…（service 已启动，正在反序列化 index.bin）"@,
                    )
                } else {
                    None
                },
                ..offline(
                    shows_indexing(f, s),
                    shown_progress(shows_indexing(f, s), snap),
                    Seq::empty(),
                )
            },
            PipeAnswer::Other => offline(
                active,
                shown_progress(active, snap),
                "管道响应异常"@,
            ),
            PipeAnswer::Failed(e) => offline(active, shown_progress(active, snap), e@),
            PipeAnswer::TimedOut => offline(
                active,
                shown_progress(active, snap),
                "管道状态查询超时（建库时仍可看上方进度；若持续请检查服务是否已启动）"@,
            ),
        }
    }
}

/// The state to show, and what to clean up: whether a pending build is no longer pending, and
/// whether a progress file that was left over is deleted.
#[derive(Debug)]
pub struct StatusOutcome {
    pub status: IndexStatus,
    pub clear_pending: bool,
    pub remove_progress_file: bool,
}

fn offline_status(indexing: bool, error: String) -> (r: IndexStatus)
    ensures
        r@ == offline(indexing, None, error@),
{
    IndexStatus {
        indexing,
        ready: false,
        indexed_count: 0,
        metadata_ready: true,
        backfill_done: 0,
        backfill_total: 0,
        indexing_phase: None,
        indexing_volumes_total: None,
        indexing_volumes_done: None,
        indexing_message: None,
        indexing_entries_indexed: None,
        indexing_current_volume: None,
        loading: false,
        loading_stage: None,
        loading_elapsed_secs: None,
        last_error: Some(error),
    }
}

fn with_progress(indexing: bool, snap: IndexingProgressSnap, error: String) -> (r: IndexStatus)
    ensures
        r@ == offline(indexing, shown_progress(indexing, snap@), error@),
{
    if !indexing {
        return offline_status(indexing, error);
    }
    IndexStatus {
        indexing,
        ready: false,
        indexed_count: 0,
        metadata_ready: true,
        backfill_done: 0,
        backfill_total: 0,
        indexing_phase: snap.phase,
        indexing_volumes_total: snap.volumes_total,
        indexing_volumes_done: snap.volumes_done,
        indexing_message: snap.message,
        indexing_entries_indexed: snap.entries_indexed,
        indexing_current_volume: snap.current_volume,
        loading: false,
        loading_stage: None,
        loading_elapsed_secs: None,
        last_error: Some(error),
    }
}

pub fn fetch_index_status(f: &LocalFacts, snap: IndexingProgressSnap, answer: PipeAnswer) -> (r:
    StatusOutcome)
    ensures
        r.status@ == status_of(*f, snap@, answer),
        r.clear_pending == (f.windows && !nothing_there(*f) && (answer matches PipeAnswer::Status(s)
            && service_alive(s))),
        r.remove_progress_file == (r.clear_pending && f.progress_file),
{
    if !f.windows {
        return StatusOutcome {
            status: offline_status(f.building, text::copied("FindX2 GUI 当前需 Windows.")),
            clear_pending: false,
            remove_progress_file: false,
        };
    }
    if !f.index_exists && !f.progress_file {
        let mut e = text::copied("尚无索引 ");
        e.push_str(&f.index_path);
        e.push_str("（首次启动会自动建索引；若以管理员启动仍失败请检查终端日志）");
        return StatusOutcome {
            status: offline_status(false, e),
            clear_pending: false,
            remove_progress_file: false,
        };
    }
    let active = f.building || f.build_pending;
    match answer {
        PipeAnswer::Status(s) => {
            let alive = s.healthy && !s.loading && s.entry_count > 0;
            let indexing = (active && !alive) || s.loading;
            let mut status = with_progress(indexing, snap, String::new());
            status.ready = s.healthy && !s.loading;
            status.indexed_count = s.entry_count;
            status.metadata_ready = s.metadata_ready;
            status.backfill_done = s.backfill_done;
            status.backfill_total = s.backfill_total;
            status.loading = s.loading;
            if s.loading {
                status.loading_stage = s.loading_stage;
                status.loading_elapsed_secs = s.loading_elapsed_secs;
            }
            status.last_error = if s.loading {
                Some(
                    text::copied(
                        "索引加载中…（service 已启动，正在反序列化 index.bin）",
                    ),
                )
            } else {
                None
            };
            StatusOutcome {
                status,
                clear_pending: alive,
                remove_progress_file: alive && f.progress_file,
            }
        },
        PipeAnswer::Other => StatusOutcome {
            status: with_progress(active, snap, text::copied("管道响应异常")),
            clear_pending: false,
            remove_progress_file: false,
        },
        PipeAnswer::Failed(e) => StatusOutcome {
            status: with_progress(active, snap, e),
            clear_pending: false,
            remove_progress_file: false,
        },
        PipeAnswer::TimedOut => StatusOutcome {
            status: with_progress(
                active,
                snap,
                text::copied(
                    "管道状态查询超时（建库时仍可看上方进度；若持续请检查服务是否已启动）",
                ),
            ),
            clear_pending: false,
            remove_progress_file: false,
        },
    }
}

/// A service that has an index always wins: flags and files left over from a build never make
/// the window show one.
pub proof fn law_service_overrides_leftovers(
    f: LocalFacts,
    snap: ProgressView,
    s: ServiceStatus,
)
    requires
        f.windows,
        f.index_exists || f.progress_file,
        service_alive(s),
    ensures
        !status_of(f, snap, PipeAnswer::Status(s)).indexing,
        status_of(f, snap, PipeAnswer::Status(s)).ready,
        status_of(f, snap, PipeAnswer::Status(s)).last_error is None,
{
}

/// A progress file alone never makes the window show a build.
pub proof fn law_progress_file_is_no_build(
    f: LocalFacts,
    snap: ProgressView,
    answer: PipeAnswer,
)
    requires
        !f.building,
        !f.build_pending,
    ensures
        status_of(f, snap, answer).indexing ==> (answer matches PipeAnswer::Status(s) && s.loading),
{
}

/// What a build has come to shows only while the window shows a build.
pub proof fn law_progress_shows_only_while_indexing(
    f: LocalFacts,
    snap: ProgressView,
    answer: PipeAnswer,
)
    ensures
        ({
            let s = status_of(f, snap, answer);
            !s.indexing ==> s.indexing_phase is None && s.indexing_volumes_total is None
                && s.indexing_volumes_done is None && s.indexing_message is None
                && s.indexing_entries_indexed is None && s.indexing_current_volume is None
        }),
{
}

// ---- loading in the status bar ------------------------------------------------------------

/// What the status bar says while the service loads its index: the stage where the service tells
/// it, else how long it has taken. `waited` is how long this program has seen it load, for services
/// that do not tell that either.
pub open spec fn loading_text(
    stage: Option<Seq<char>>,
    elapsed: Option<u64>,
    waited: u64,
) -> Seq<char> {
    match stage {
        Some(t) => "索引: 加载中 · "@ + t,
        None => "索引: 加载中（已 "@ + text::decimal(
            (match elapsed {
                Some(n) => n,
                None => waited,
            }) as nat,
        ) + "s）"@,
    }
}

pub fn status_bar(s: &IndexStatus, waited: u64) -> (r: Option<String>)
    ensures
        text::opt_view(r) == (if s.loading {
            Some(loading_text(text::opt_view(s.loading_stage), s.loading_elapsed_secs, waited))
        } else {
            None
        }),
{
    if !s.loading {
        return None;
    }
    match &s.loading_stage {
        Some(t) => {
            let mut out = text::copied("索引: 加载中 · ");
            out.push_str(t);
            Some(out)
        },
        None => {
            let secs: u64 = match s.loading_elapsed_secs {
                Some(n) => n,
                None => waited,
            };
            let mut out = text::copied("索引: 加载中（已 ");
            out.push_str(&text::decimal_text(secs));
            out.push_str("s）");
            Some(out)
        },
    }
}

// ---- the progress file --------------------------------------------------------------------

/// The directory of the other build profile beside a `debug` or `release` directory.
pub open spec fn sibling_profile(style: PathStyle, base: Seq<char>) -> Option<Seq<char>> {
    match (paths::file_name_of(style, base), paths::parent_of(style, base)) {
        (Some(name), Some(parent)) => if text::same_ignoring_case(name, "debug"@) {
            Some(paths::joined_path(style, parent, "release"@))
        } else if text::same_ignoring_case(name, "release"@) {
            Some(paths::joined_path(style, parent, "debug"@))
        } else {
            None
        },
        _ => None,
    }
}

pub fn sibling_target_profile_dir(style: PathStyle, base: &str) -> (r: Option<String>)
    ensures
        text::opt_view(r) == sibling_profile(style, base@),
{
    let name = match paths::file_name(style, base) {
        Some(n) => n,
        None => {
            return None;
        },
    };
    let parent = match paths::parent(style, base) {
        Some(p) => p,
        None => {
            return None;
        },
    };
    if text::equals_ignoring_case(&name, "debug") {
        Some(paths::join(style, &parent, "release"))
    } else if text::equals_ignoring_case(&name, "release") {
        Some(paths::join(style, &parent, "debug"))
    } else {
        None
    }
}

/// The progress file beside the index of a program in `base`.
pub open spec fn progress_path(style: PathStyle, base: Seq<char>, index_path: Seq<char>) -> Seq<
    char,
> {
    paths::with_ext(
        style,
        findx_settings::index_path_of(style, base, index_path),
        "indexing.json"@,
    )
}

/// The places to look for the progress file: beside the index, and for a program in a build
/// directory beside the index of the other profile.
pub open spec fn progress_paths(style: PathStyle, base: Seq<char>, index_path: Seq<char>) -> (
    Seq<char>,
    Option<Seq<char>>,
) {
    (
        progress_path(style, base, index_path),
        match sibling_profile(style, base) {
            Some(s) => Some(progress_path(style, s, index_path)),
            None => None,
        },
    )
}

pub fn indexing_json_paths(style: PathStyle, base: &str, settings: &FindxGuiSettings) -> (r: (
    String,
    Option<String>,
))
    ensures
        (r.0@, text::opt_view(r.1)) == progress_paths(style, base@, settings@.index_path),
{
    let index = findx_settings::resolve_index_path(style, base, settings);
    let primary = paths::with_extension(style, &index, "indexing.json");
    let other = match sibling_target_profile_dir(style, base) {
        Some(s) => {
            let alt = findx_settings::resolve_index_path(style, &s, settings);
            Some(paths::with_extension(style, &alt, "indexing.json"))
        },
        None => None,
    };
    (primary, other)
}

/// The progress file: the first place unless only the second has one.
pub fn resolve_indexing_json_path(
    primary: String,
    primary_exists: bool,
    other: Option<String>,
    other_exists: bool,
) -> (r: String)
    ensures
        r@ == (match other {
            Some(o) if !primary_exists && other_exists => o@,
            _ => primary@,
        }),
{
    if primary_exists {
        return primary;
    }
    match other {
        Some(o) => {
            if other_exists {
                o
            } else {
                primary
            }
        },
        None => primary,
    }
}

/// What the window shows of a service that answers is what the service says: its entries, whether
/// it is ready, its backfill and its load. The window is ready exactly where the service is well
/// and not loading.
pub proof fn law_status_is_that_of_the_service(
    f: LocalFacts,
    snap: ProgressView,
    s: ServiceStatus,
)
    requires
        f.windows,
        f.index_exists || f.progress_file,
    ensures
        ({
            let w = status_of(f, snap, PipeAnswer::Status(s));
            &&& w.indexed_count == s.entry_count
            &&& w.ready <==> s.healthy && !s.loading
            &&& w.metadata_ready == s.metadata_ready
            &&& w.backfill_done == s.backfill_done
            &&& w.backfill_total == s.backfill_total
            &&& w.loading == s.loading
            &&& s.loading ==> w.loading_stage == text::opt_view(s.loading_stage)
                && w.loading_elapsed_secs == s.loading_elapsed_secs && w.last_error is Some
            &&& !s.loading ==> w.loading_stage is None && w.loading_elapsed_secs is None
                && w.last_error is None
        }),
{
}

/// While a build is under way, the window shows what the progress file says of it.
pub proof fn law_progress_of_a_build_is_shown(
    f: LocalFacts,
    snap: ProgressView,
    answer: PipeAnswer,
)
    requires
        f.windows,
        f.index_exists || f.progress_file,
    ensures
        ({
            let w = status_of(f, snap, answer);
            &&& w.indexing ==> w.indexing_phase == snap.phase && w.indexing_volumes_total
                == snap.volumes_total && w.indexing_volumes_done == snap.volumes_done
                && w.indexing_message == snap.message && w.indexing_entries_indexed
                == snap.entries_indexed && w.indexing_current_volume == snap.current_volume
            &&& answer !is Status ==> (w.indexing <==> f.building || f.build_pending) && !w.ready
                && w.indexed_count == 0 && w.last_error is Some
            &&& answer matches PipeAnswer::Failed(e) ==> w.last_error == Some(e@)
        }),
{
}

/// Each part of the progress file is read from its own key.
pub proof fn law_progress_keys(b: Seq<u8>)
    ensures
        ({
            let p = progress_in(Some(b));
            &&& p.phase == json_text(b, "phase"@)
            &&& p.volumes_total == json_number(b, "volumes_total"@)
            &&& p.volumes_done == json_number(b, "volumes_completed"@)
            &&& p.entries_indexed == json_number(b, "entries_indexed"@)
            &&& p.current_volume == json_text(b, "current_volume"@)
            &&& p.message == json_text(b, "message"@)
        }),
        progress_in(None).phase is None && progress_in(None).message is None,
{
}

/// A build of one profile also looks where the other profile's progress lies.
pub proof fn law_profiles(style: PathStyle, base: Seq<char>, index_path: Seq<char>)
    ensures
        progress_paths(style, base, index_path).0 == paths::with_ext(
            style,
            findx_settings::index_path_of(style, base, index_path),
            "indexing.json"@,
        ),
        ({
            let name = paths::file_name_of(style, base);
            let parent = paths::parent_of(style, base);
            let other = progress_paths(style, base, index_path).1;
            &&& name is None || parent is None ==> other is None
            &&& (name is Some && parent is Some && text::same_ignoring_case(name->0, "debug"@))
                ==> other == Some(
                progress_paths(
                    style,
                    paths::joined_path(style, parent->0, "release"@),
                    index_path,
                ).0,
            )
            &&& (name is Some && parent is Some && !text::same_ignoring_case(name->0, "debug"@)
                && text::same_ignoring_case(name->0, "release"@)) ==> other == Some(
                progress_paths(
                    style,
                    paths::joined_path(style, parent->0, "debug"@),
                    index_path,
                ).0,
            )
            &&& (name is Some && !text::same_ignoring_case(name->0, "debug"@)
                && !text::same_ignoring_case(name->0, "release"@)) ==> other is None
        }),
{
}

/// While an index is loaded the bar shows the stage where it is known, else how long it has taken.
pub proof fn law_loading_is_shown(t: Seq<char>, n: u64, waited: u64)
    ensures
        loading_text(Some(t), Some(n), waited) == "索引: 加载中 · "@ + t,
        loading_text(Some(t), None, waited) == "索引: 加载中 · "@ + t,
        loading_text(None, Some(n), waited) == "索引: 加载中（已 "@ + text::decimal(n as nat)
            + "s）"@,
        loading_text(None, None, waited) == "索引: 加载中（已 "@ + text::decimal(waited as nat)
            + "s）"@,
{
}

} // verus!
