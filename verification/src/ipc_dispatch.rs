//! What the service answers: requests and replies, the answer to each request in every state of
//! the engine, and the lines that carry them.
use vstd::prelude::*;
use crate::load_state::{self, LoadSnapshot, LoadSnapshotView};
use crate::text;
use crate::watch::VolumeState;

verus! {

/// What a client can ask.
#[derive(Debug)]
pub enum IpcRequest {
    Ping,
    Status,
    Search { query: String, pinyin: bool, limit: u64, offset: u64 },
}

/// One hit of a search; the highlights are ranges of the name.
#[derive(Debug)]
pub struct SearchHitDto {
    pub entry_idx: u32,
    pub name: String,
    pub path: String,
    pub size: u64,
    pub mtime: u64,
    pub is_directory: bool,
    pub name_highlight: Vec<[u32; 2]>,
}

/// The state of the service. The `loading_` parts are there while an index is being loaded.
#[derive(Debug)]
pub struct StatusReport {
    pub entry_count: u64,
    pub dir_count: u64,
    pub last_usn: u64,
    pub journal_id: u64,
    pub volume_letter: Option<char>,
    pub healthy: bool,
    pub metadata_ready: bool,
    pub backfill_done: u64,
    pub backfill_total: u64,
    pub loading: bool,
    pub watch_error: Option<String>,
    pub backfill_error: Option<String>,
    pub tombstone_count: u64,
    pub loading_stage: Option<String>,
    pub loading_elapsed_secs: Option<u64>,
    pub loading_phase_done: Option<u32>,
    pub loading_phase_total: Option<u32>,
}

pub struct StatusReportView {
    pub entry_count: u64,
    pub dir_count: u64,
    pub last_usn: u64,
    pub journal_id: u64,
    pub volume_letter: Option<char>,
    pub healthy: bool,
    pub metadata_ready: bool,
    pub backfill_done: u64,
    pub backfill_total: u64,
    pub loading: bool,
    pub watch_error: Option<Seq<char>>,
    pub backfill_error: Option<Seq<char>>,
    pub tombstone_count: u64,
    pub loading_stage: Option<Seq<char>>,
    pub loading_elapsed_secs: Option<u64>,
    pub loading_phase_done: Option<u32>,
    pub loading_phase_total: Option<u32>,
}

impl View for StatusReport {
    type V = StatusReportView;

    open spec fn view(&self) -> StatusReportView {
        StatusReportView {
            entry_count: self.entry_count,
            dir_count: self.dir_count,
            last_usn: self.last_usn,
            journal_id: self.journal_id,
            volume_letter: self.volume_letter,
            healthy: self.healthy,
            metadata_ready: self.metadata_ready,
            backfill_done: self.backfill_done,
            backfill_total: self.backfill_total,
            loading: self.loading,
            watch_error: text::opt_view(self.watch_error),
            backfill_error: text::opt_view(self.backfill_error),
            tombstone_count: self.tombstone_count,
            loading_stage: text::opt_view(self.loading_stage),
            loading_elapsed_secs: self.loading_elapsed_secs,
            loading_phase_done: self.loading_phase_done,
            loading_phase_total: self.loading_phase_total,
        }
    }
}

/// What the service answers.
#[derive(Debug)]
pub enum IpcResponse {
    Pong,
    StatusResult(StatusReport),
    SearchResult { hits: Vec<SearchHitDto>, total: u32, elapsed_ms: u32 },
    Error { message: String },
}

/// What the status needs of an index that can be read.
#[derive(Debug)]
pub struct IndexFacts {
    pub entry_count: u64,
    pub dir_count: u64,
    pub tombstone_count: u64,
    pub first_volume: Option<VolumeState>,
    pub metadata_ready: bool,
}

/// The engine at the time of a request.
#[derive(Debug)]
pub enum EngineState {
    /// The index is still being loaded.
    Missing,
    /// The index is there; it cannot be read (`None`) while someone writes to it. The backfill is
    /// known either way.
    Present { facts: Option<IndexFacts>, backfill: (u64, u64), backfill_error: Option<String> },
}

/// What a request leads to.
#[derive(Debug)]
pub enum Dispatch {
    Reply(IpcResponse),
    /// Search, and answer with `search_reply`.
    Search { query: String, pinyin: bool, limit: u64, offset: u64 },
}

/// The kind of a request, for the log.
pub open spec fn kind_label(r: IpcRequest) -> Seq<char> {
    match r {
        IpcRequest::Ping => "Ping"@,
        IpcRequest::Status => "Status"@,
        IpcRequest::Search { .. } => "Search"@,
    }
}

pub fn req_kind_label(r: &IpcRequest) -> (s: String)
    ensures
        s@ == kind_label(*r),
{
    match r {
        IpcRequest::Ping => text::copied("Ping"),
        IpcRequest::Status => text::copied("Status"),
        IpcRequest::Search { .. } => text::copied("Search"),
    }
}

/// A report that knows nothing of an index.
pub open spec fn blank_report() -> StatusReportView {
    StatusReportView {
        entry_count: 0,
        dir_count: 0,
        last_usn: 0,
        journal_id: 0,
        volume_letter: None,
        healthy: false,
        metadata_ready: false,
        backfill_done: 0,
        backfill_total: 0,
        loading: true,
        watch_error: None,
        backfill_error: None,
        tombstone_count: 0,
        loading_stage: None,
        loading_elapsed_secs: None,
        loading_phase_done: None,
        loading_phase_total: None,
    }
}

/// The seconds since loading began, as far as the number goes.
pub open spec fn loading_secs(started: u128, now: u128) -> u64 {
    if load_state::seconds_since(started, now) > u64::MAX {
        u64::MAX
    } else {
        load_state::seconds_since(started, now) as u64
    }
}

/// A report with the stage of the load, where one is under way.
pub open spec fn with_loading(
    r: StatusReportView,
    snap: Option<LoadSnapshotView>,
    now: u128,
) -> StatusReportView {
    match snap {
        Some(s) => StatusReportView {
            loading_stage: Some(
                load_state::progress_line(s, loading_secs(s.started, now) as nat),
            ),
            loading_elapsed_secs: Some(loading_secs(s.started, now)),
            loading_phase_done: Some(s.phases_done),
            loading_phase_total: Some(s.phases_total),
            ..r
        },
        None => r,
    }
}

/// The report on an engine.
pub open spec fn report(
    engine: EngineState,
    snap: Option<LoadSnapshotView>,
    now: u128,
    watch_error: Option<Seq<char>>,
) -> StatusReportView {
    match engine {
        EngineState::Missing => with_loading(
            StatusReportView { watch_error, ..blank_report() },
            snap,
            now,
        ),
        EngineState::Present { facts: None, backfill, backfill_error } => with_loading(
            StatusReportView {
                healthy: true,
                backfill_done: backfill.0,
                backfill_total: backfill.1,
                watch_error,
                backfill_error: text::opt_view(backfill_error),
                ..blank_report()
            },
            snap,
            now,
        ),
        EngineState::Present { facts: Some(f), backfill, backfill_error } => StatusReportView {
            entry_count: f.entry_count,
            dir_count: f.dir_count,
            last_usn: match f.first_volume {
                Some(v) => v.last_usn,
                None => 0,
            },
            journal_id: match f.first_volume {
                Some(v) => v.usn_journal_id,
                None => 0,
            },
            volume_letter: match f.first_volume {
                Some(v) if v.volume_letter != 0 => Some(v.volume_letter as char),
                _ => None,
            },
            healthy: true,
            metadata_ready: f.metadata_ready,
            backfill_done: if f.metadata_ready {
                0
            } else {
                backfill.0
            },
            backfill_total: if f.metadata_ready {
                0
            } else {
                backfill.1
            },
            loading: false,
            watch_error,
            backfill_error: if f.metadata_ready {
                None
            } else {
                text::opt_view(backfill_error)
            },
            tombstone_count: f.tombstone_count,
            ..blank_report()
        },
    }
}

fn blank(watch_error: Option<String>) -> (r: StatusReport)
    ensures
        r@ == (StatusReportView { watch_error: text::opt_view(watch_error), ..blank_report() }),
{
    StatusReport {
        entry_count: 0,
        dir_count: 0,
        last_usn: 0,
        journal_id: 0,
        volume_letter: None,
        healthy: false,
        metadata_ready: false,
        backfill_done: 0,
        backfill_total: 0,
        loading: true,
        watch_error,
        backfill_error: None,
        tombstone_count: 0,
        loading_stage: None,
        loading_elapsed_secs: None,
        loading_phase_done: None,
        loading_phase_total: None,
    }
}

pub open spec fn snapshot_view(snap: Option<LoadSnapshot>) -> Option<LoadSnapshotView> {
    match snap {
        Some(s) => Some(s@),
        None => None,
    }
}

fn add_loading(r: StatusReport, snap: &Option<LoadSnapshot>, now: u128) -> (s: StatusReport)
    ensures
        s@ == with_loading(r@, snapshot_view(*snap), now),
{
    let mut r = r;
    match snap {
        Some(s) => {
            r.loading_stage = Some(load_state::progress_line_of(s, now));
            r.loading_elapsed_secs = Some(load_state::elapsed_secs(s, now));
            r.loading_phase_done = Some(s.phases_done);
            r.loading_phase_total = Some(s.phases_total);
        },
        None => {},
    }
    r
}

/// The state of the service as a client sees it.
pub fn status_report(
    engine: &EngineState,
    snap: &Option<LoadSnapshot>,
    now: u128,
    watch_error: Option<String>,
) -> (r: StatusReport)
    ensures
        r@ == report(*engine, snapshot_view(*snap), now, text::opt_view(watch_error)),
{
    let mut r = blank(watch_error);
    match engine {
        EngineState::Missing => add_loading(r, snap, now),
        EngineState::Present { facts, backfill, backfill_error } => {
            r.healthy = true;
            match facts {
                None => {
                    r.backfill_done = backfill.0;
                    r.backfill_total = backfill.1;
                    r.backfill_error = text::copied_opt(backfill_error);
                    add_loading(r, snap, now)
                },
                Some(f) => {
                    r.entry_count = f.entry_count;
                    r.dir_count = f.dir_count;
                    r.tombstone_count = f.tombstone_count;
                    match &f.first_volume {
                        Some(v) => {
                            r.last_usn = v.last_usn;
                            r.journal_id = v.usn_journal_id;
                            if v.volume_letter != 0 {
                                r.volume_letter = Some(v.volume_letter as char);
                            }
                        },
                        None => {},
                    }
                    r.metadata_ready = f.metadata_ready;
                    r.loading = false;
                    if !f.metadata_ready {
                        r.backfill_done = backfill.0;
                        r.backfill_total = backfill.1;
                        r.backfill_error = text::copied_opt(backfill_error);
                    }
                    r
                },
            }
        },
    }
}

/// Answers a request, or hands a search on.
pub fn process_request(
    req: IpcRequest,
    engine: &EngineState,
    snap: &Option<LoadSnapshot>,
    now: u128,
    watch_error: Option<String>,
) -> (r: Dispatch)
    ensures
        match req {
            IpcRequest::Ping => r == Dispatch::Reply(IpcResponse::Pong),
            IpcRequest::Status => r matches Dispatch::Reply(IpcResponse::StatusResult(s)) && s@
                == report(*engine, snapshot_view(*snap), now, text::opt_view(watch_error)),
            IpcRequest::Search { query, pinyin, limit, offset } => if engine is Missing {
                r matches Dispatch::Reply(IpcResponse::Error { message }) && message@
                    == "索引加载中，请稍候…"@
            } else {
                r == (Dispatch::Search { query, pinyin, limit, offset })
            },
        },
{
    match req {
        IpcRequest::Ping => Dispatch::Reply(IpcResponse::Pong),
        IpcRequest::Status => Dispatch::Reply(
            IpcResponse::StatusResult(status_report(engine, snap, now, watch_error)),
        ),
        IpcRequest::Search { query, pinyin, limit, offset } => match engine {
            EngineState::Missing => Dispatch::Reply(
                IpcResponse::Error { message: text::copied("索引加载中，请稍候…") },
            ),
            EngineState::Present { .. } => Dispatch::Search { query, pinyin, limit, offset },
        },
    }
}

// ---- searching ----------------------------------------------------------------------------

/// How many hits a search returns.
pub open spec fn hits_asked(asked: u64, of_query: u32) -> u64 {
    if asked == 0 {
        of_query as u64
    } else {
        asked
    }
}

/// How many hits a search returns: the number asked for, or that of the query where it is 0.
pub fn page_limit(asked: u64, of_query: u32) -> (r: u64)
    ensures
        r == hits_asked(asked, of_query),
        r == (if asked == 0 {
            of_query as int
        } else {
            asked as int
        }),
{
    if asked == 0 {
        of_query as u64
    } else {
        asked
    }
}

/// The time of a search in milliseconds, as far as the number goes.
pub fn elapsed_millis(nanos: u128) -> (r: u32)
    ensures
        r == (if nanos / 1_000_000 > u32::MAX {
            u32::MAX as int
        } else {
            nanos as int / 1_000_000
        }),
{
    let ms: u128 = nanos / 1_000_000;
    if ms > u32::MAX as u128 {
        u32::MAX
    } else {
        ms as u32
    }
}

/// A hit as the engine finds it.
#[derive(Debug)]
pub struct EngineHit {
    pub entry_idx: u32,
    pub name: String,
    pub path: String,
    pub size: u64,
    pub mtime: u64,
    pub name_highlight: Vec<[u32; 2]>,
}

/// The hit as the client gets it.
pub open spec fn client_hit(h: EngineHit, is_dir: Seq<bool>) -> SearchHitDto {
    SearchHitDto {
        entry_idx: h.entry_idx,
        name: h.name,
        path: h.path,
        size: h.size,
        mtime: h.mtime,
        is_directory: h.entry_idx < is_dir.len() && is_dir[h.entry_idx as int],
        name_highlight: h.name_highlight,
    }
}

/// The hit for the client; `is_dir` says of each entry of the index whether it is a directory,
/// and an entry beyond its end is none.
pub fn hit_dto(h: EngineHit, is_dir: &Vec<bool>) -> (r: SearchHitDto)
    ensures
        r == (SearchHitDto {
            entry_idx: h.entry_idx,
            name: h.name,
            path: h.path,
            size: h.size,
            mtime: h.mtime,
            is_directory: h.entry_idx < is_dir@.len() && is_dir@[h.entry_idx as int],
            name_highlight: h.name_highlight,
        }),
        r == client_hit(h, is_dir@),
{
    let is_directory = (h.entry_idx as usize) < is_dir.len() && is_dir[h.entry_idx as usize];
    SearchHitDto {
        entry_idx: h.entry_idx,
        name: h.name,
        path: h.path,
        size: h.size,
        mtime: h.mtime,
        is_directory,
        name_highlight: h.name_highlight,
    }
}

/// The answer to a search that brought hits or failed.
pub fn search_reply(found: Result<(Vec<SearchHitDto>, u32), String>, nanos: u128) -> (r:
    IpcResponse)
    ensures
        match found {
            Ok(p) => r matches IpcResponse::SearchResult { hits, total, elapsed_ms } && hits == p.0
                && total == p.1 && elapsed_ms == (if nanos / 1_000_000 > u32::MAX {
                u32::MAX as int
            } else {
                nanos as int / 1_000_000
            }),
            Err(e) => r == (IpcResponse::Error { message: e }),
        },
{
    match found {
        Ok(p) => IpcResponse::SearchResult {
            hits: p.0,
            total: p.1,
            elapsed_ms: elapsed_millis(nanos),
        },
        Err(message) => IpcResponse::Error { message },
    }
}

// ---- lines --------------------------------------------------------------------------------

/// The request in a line: the line without white space around it, nothing for an empty line.
pub fn request_in_line(line: &str) -> (r: Option<String>)
    ensures
        text::opt_view(r) == (if text::trimmed(line@).len() == 0 {
            None
        } else {
            Some(text::trimmed(line@))
        }),
{
    let t = text::trim(line);
    if t.as_str().is_empty() {
        None
    } else {
        Some(t)
    }
}

/// Why a line could not be answered.
#[derive(Debug)]
pub enum LineFailure {
    /// The line is no request; the reason is that of the parser.
    NotARequest(String),
    /// The work on the request broke off.
    Broken(String),
}

pub fn failure_reply(f: &LineFailure) -> (r: IpcResponse)
    ensures
        r matches IpcResponse::Error { message } && message@ == (match *f {
            LineFailure::NotARequest(e) => "JSON 解析失败: "@ + e@,
            LineFailure::Broken(e) => "处理请求 panic: "@ + e@,
        }),
{
    let mut message = match f {
        LineFailure::NotARequest(_) => text::copied("JSON 解析失败: "),
        LineFailure::Broken(_) => text::copied("处理请求 panic: "),
    };
    match f {
        LineFailure::NotARequest(e) => message.push_str(e),
        LineFailure::Broken(e) => message.push_str(e),
    }
    IpcResponse::Error { message }
}

/// The line that carries a reply.
pub fn reply_line(json: &str) -> (r: String)
    ensures
        r@ == json@.push('\n'),
{
    let mut s = text::copied(json);
    s.push('\n');
    s
}

// ---- laws ---------------------------------------------------------------------------------

/// While there is no index, the status says so and every search is refused; neither needs the
/// index.
pub proof fn law_loading_is_visible(
    snap: Option<LoadSnapshotView>,
    now: u128,
    watch_error: Option<Seq<char>>,
)
    ensures
        report(EngineState::Missing, snap, now, watch_error).loading,
        !report(EngineState::Missing, snap, now, watch_error).healthy,
        snap is Some ==> report(EngineState::Missing, snap, now, watch_error).loading_stage is Some,
{
}

/// Once the metadata is complete the status no longer speaks of the backfill.
pub proof fn law_backfill_disappears(
    facts: IndexFacts,
    backfill: (u64, u64),
    backfill_error: Option<String>,
    snap: Option<LoadSnapshotView>,
    now: u128,
    watch_error: Option<Seq<char>>,
)
    requires
        facts.metadata_ready,
    ensures
        ({
            let r = report(
                EngineState::Present { facts: Some(facts), backfill, backfill_error },
                snap,
                now,
                watch_error,
            );
            r.backfill_done == 0 && r.backfill_total == 0 && r.backfill_error is None && !r.loading
        }),
{
}

/// A reply line holds one line: what a client reads up to the line end is the reply.
pub proof fn law_reply_is_one_line(json: Seq<char>)
    requires
        !json.contains('\n'),
    ensures
        json.push('\n').last() == '\n',
        forall|i: int| 0 <= i < json.len() ==> #[trigger] json.push('\n')[i] != '\n',
{
    assert forall|i: int| 0 <= i < json.len() implies #[trigger] json.push('\n')[i] != '\n' by {
        assert(json.push('\n')[i] == json[i]);
        assert(json.contains(json[i]));
    }
}

/// A client gets of each hit what the engine found: the entry, name, path, size, last change and
/// highlights of that very hit, and whether its entry is a directory.
pub proof fn law_hits_are_handed_on(h: EngineHit, is_dir: Seq<bool>)
    ensures
        ({
            let d = client_hit(h, is_dir);
            &&& d.entry_idx == h.entry_idx
            &&& d.name == h.name
            &&& d.path == h.path
            &&& d.size == h.size
            &&& d.mtime == h.mtime
            &&& d.name_highlight == h.name_highlight
            &&& h.entry_idx < is_dir.len() ==> d.is_directory == is_dir[h.entry_idx as int]
            &&& h.entry_idx >= is_dir.len() ==> !d.is_directory
        }),
{
}

/// A limit of its own wins over that of the query, and none means that of the query.
pub proof fn law_limit_of_a_search(asked: u64, of_query: u32)
    ensures
        asked > 0 ==> hits_asked(asked, of_query) == asked,
        hits_asked(0, of_query) == of_query,
{
}

/// The status of an index that can be read says its entries, directories and deleted entries, and
/// the letter, journal and position of its first volume, each as the index has it.
pub proof fn law_status_says_what_the_index_has(
    f: IndexFacts,
    backfill: (u64, u64),
    backfill_error: Option<String>,
    snap: Option<LoadSnapshotView>,
    now: u128,
    watch_error: Option<Seq<char>>,
)
    ensures
        ({
            let r = report(
                EngineState::Present { facts: Some(f), backfill, backfill_error },
                snap,
                now,
                watch_error,
            );
            &&& r.entry_count == f.entry_count
            &&& r.dir_count == f.dir_count
            &&& r.tombstone_count == f.tombstone_count
            &&& r.metadata_ready == f.metadata_ready
            &&& r.healthy && !r.loading
            &&& r.watch_error == watch_error
            &&& f.first_volume matches Some(v) ==> r.last_usn == v.last_usn && r.journal_id
                == v.usn_journal_id && (v.volume_letter != 0 ==> r.volume_letter == Some(
                v.volume_letter as char,
            ))
            &&& f.first_volume is None ==> r.last_usn == 0 && r.journal_id == 0 && r.volume_letter is None
            &&& !f.metadata_ready ==> r.backfill_done == backfill.0 && r.backfill_total == backfill.1
                && r.backfill_error == text::opt_view(backfill_error)
            &&& r.loading_stage is None && r.loading_elapsed_secs is None
        }),
{
}

/// The status of an index that someone writes to knows the backfill and what is wrong, and says how
/// far a load has come where one is under way; so does the status without an index.
pub proof fn law_status_while_the_index_is_closed(
    backfill: (u64, u64),
    backfill_error: Option<String>,
    s: LoadSnapshotView,
    now: u128,
    watch_error: Option<Seq<char>>,
)
    ensures
        ({
            let r = report(
                EngineState::Present { facts: None, backfill, backfill_error },
                Some(s),
                now,
                watch_error,
            );
            &&& r.healthy && r.loading && !r.metadata_ready
            &&& r.entry_count == 0 && r.dir_count == 0
            &&& r.backfill_done == backfill.0 && r.backfill_total == backfill.1
            &&& r.backfill_error == text::opt_view(backfill_error)
            &&& r.watch_error == watch_error
            &&& r.loading_phase_done == Some(s.phases_done)
            &&& r.loading_phase_total == Some(s.phases_total)
        }),
        ({
            let r = report(EngineState::Missing, Some(s), now, watch_error);
            &&& !r.healthy && r.loading && !r.metadata_ready
            &&& r.entry_count == 0 && r.backfill_done == 0 && r.backfill_total == 0
            &&& r.watch_error == watch_error
            &&& r.loading_phase_done == Some(s.phases_done)
            &&& r.loading_phase_total == Some(s.phases_total)
            &&& s.started <= now ==> (r.loading_elapsed_secs matches Some(n) && (n < u64::MAX
                ==> n as int * 1_000_000_000 <= now - s.started < (n + 1) * 1_000_000_000))
        }),
{
}

/// The names of the kinds of request.
pub proof fn law_kinds_of_request(r: IpcRequest)
    ensures
        r is Ping ==> kind_label(r) == "Ping"@,
        r is Status ==> kind_label(r) == "Status"@,
        r is Search ==> kind_label(r) == "Search"@,
{
}

/// A status during a load tells the seconds since it began and how many of its stages are done, and
/// changes nothing else of the report.
pub proof fn law_load_in_a_status(r: StatusReportView, s: LoadSnapshotView, now: u128)
    requires
        load_state::seconds_since(s.started, now) <= u64::MAX,
    ensures
        ({
            let t = with_loading(r, Some(s), now);
            &&& t.loading_elapsed_secs == Some(load_state::seconds_since(s.started, now) as u64)
            &&& t.loading_phase_done == Some(s.phases_done)
            &&& t.loading_phase_total == Some(s.phases_total)
            &&& t.loading_stage == Some(
                load_state::progress_line(s, load_state::seconds_since(s.started, now) as nat),
            )
            &&& t.entry_count == r.entry_count && t.dir_count == r.dir_count
            &&& t.last_usn == r.last_usn && t.journal_id == r.journal_id
            &&& t.healthy == r.healthy && t.loading == r.loading
            &&& t.metadata_ready == r.metadata_ready && t.tombstone_count == r.tombstone_count
            &&& t.backfill_done == r.backfill_done && t.backfill_total == r.backfill_total
        }),
        with_loading(r, None, now) == r,
{
}

} // verus!
