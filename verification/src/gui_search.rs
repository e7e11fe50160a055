//! Searching from the window program: the query that is sent and the hits that are shown.
use vstd::prelude::*;
use crate::ipc_dispatch::{IpcResponse, SearchHitDto};
use crate::paths::{self, PathStyle};
use crate::pipe_server;
use crate::text;

verus! {

/// The most hits that are asked for at once.
pub const MAX_HITS: u32 = 8192;

/// The time 1970 in the units of a file time, in seconds.
pub const UNIX_EPOCH_SECS: u64 = 11_644_473_600;

/// A file time (in tenths of microseconds since 1601) as seconds since 1970; earlier times are 0.
pub open spec fn unix_seconds(ft: u64) -> int {
    let secs = ft as int / 10_000_000;
    if secs > UNIX_EPOCH_SECS {
        secs - UNIX_EPOCH_SECS
    } else {
        0
    }
}

pub fn filetime_to_unix(ft: u64) -> (r: i64)
    ensures
        r == unix_seconds(ft),
{
    let secs: u64 = ft / 10_000_000;
    if secs > UNIX_EPOCH_SECS {
        (secs - UNIX_EPOCH_SECS) as i64
    } else {
        0
    }
}

/// A hit as the window shows it.
#[derive(Debug)]
pub struct SearchResult {
    pub name: String,
    pub path: String,
    pub extension: String,
    pub size: u64,
    pub created_unix: i64,
    pub modified_unix: i64,
    pub is_directory: bool,
    pub name_highlight: Vec<[u32; 2]>,
}

pub struct SearchResultView {
    pub name: Seq<char>,
    pub path: Seq<char>,
    pub extension: Seq<char>,
    pub size: u64,
    pub created_unix: i64,
    pub modified_unix: i64,
    pub is_directory: bool,
    pub name_highlight: Seq<[u32; 2]>,
}

impl View for SearchResult {
    type V = SearchResultView;

    open spec fn view(&self) -> SearchResultView {
        SearchResultView {
            name: self.name@,
            path: self.path@,
            extension: self.extension@,
            size: self.size,
            created_unix: self.created_unix,
            modified_unix: self.modified_unix,
            is_directory: self.is_directory,
            name_highlight: self.name_highlight@,
        }
    }
}

/// What the window shows of a hit.
pub open spec fn shown_hit(style: PathStyle, d: SearchHitDto) -> SearchResultView {
    SearchResultView {
        name: d.name@,
        path: d.path@,
        extension: match paths::extension_of(style, d.name@) {
            Some(e) => e,
            None => Seq::empty(),
        },
        size: d.size,
        created_unix: 0,
        modified_unix: unix_seconds(d.mtime) as i64,
        is_directory: d.is_directory,
        name_highlight: d.name_highlight@,
    }
}

/// The hit with its extension and its time in seconds; the time of creation is not sent.
pub fn map_search_hit(style: PathStyle, d: SearchHitDto) -> (r: SearchResult)
    ensures
        r@ == shown_hit(style, d),
        r.name == d.name,
        r.path == d.path,
        r.extension@ == (match paths::extension_of(style, d.name@) {
            Some(e) => e,
            None => Seq::empty(),
        }),
        r.size == d.size,
        r.created_unix == 0,
        r.modified_unix == unix_seconds(d.mtime),
        r.is_directory == d.is_directory,
        r.name_highlight == d.name_highlight,
{
    let extension = match paths::extension(style, &d.name) {
        Some(e) => e,
        None => String::new(),
    };
    proof {
        assert(extension@ =~= shown_hit(style, d).extension);
    }
    SearchResult {
        name: d.name,
        path: d.path,
        extension,
        size: d.size,
        created_unix: 0,
        modified_unix: filetime_to_unix(d.mtime),
        is_directory: d.is_directory,
        name_highlight: d.name_highlight,
    }
}

/// The query that is sent: the text without white space around it, and the extension to search.
pub open spec fn sent_query(query: Seq<char>, extension: Option<Seq<char>>) -> Seq<char> {
    match extension {
        Some(e) if e.len() > 0 => text::trimmed(query) + " ext:"@ + e,
        _ => text::trimmed(query),
    }
}

/// How many hits are asked for: those of the request, else of the settings, from 1 to the most.
pub open spec fn sent_limit(limit: Option<u32>, of_settings: u32) -> u32 {
    let n = match limit {
        Some(l) => l,
        None => of_settings,
    };
    if n < 1 {
        1
    } else if n > MAX_HITS {
        MAX_HITS
    } else {
        n
    }
}

/// What is sent to the service for a search.
pub fn search_files(
    query: &str,
    extension: &Option<String>,
    limit: Option<u32>,
    settings_limit: u32,
    pinyin: Option<bool>,
    settings_pinyin: bool,
) -> (r: (String, u32, bool))
    ensures
        r.0@ == sent_query(query@, text::opt_view(*extension)),
        r.1 == sent_limit(limit, settings_limit),
        r.2 == (match pinyin {
            Some(p) => p,
            None => settings_pinyin,
        }),
{
    let mut q = text::trim(query);
    match extension {
        Some(e) => {
            if !e.as_str().is_empty() {
                q.push_str(" ext:");
                q.push_str(e);
            }
        },
        None => {},
    }
    let n: u32 = match limit {
        Some(l) => l,
        None => settings_limit,
    };
    let n: u32 = if n < 1 {
        1
    } else if n > MAX_HITS {
        MAX_HITS
    } else {
        n
    };
    let p = match pinyin {
        Some(p) => p,
        None => settings_pinyin,
    };
    (q, n, p)
}

/// The hits of a reply, or why there are none.
pub fn hits_of_reply(reply: IpcResponse) -> (r: Result<(Vec<SearchHitDto>, u32, u32), String>)
    ensures
        match reply {
            IpcResponse::SearchResult { hits, total, elapsed_ms } => r == Ok::<
                (Vec<SearchHitDto>, u32, u32),
                String,
            >((hits, total, elapsed_ms)),
            IpcResponse::Error { message } => r == Err::<(Vec<SearchHitDto>, u32, u32), String>(
                message,
            ),
            _ => r matches Err(e) && e@ == "管道响应异常"@,
        },
{
    match reply {
        IpcResponse::SearchResult { hits, total, elapsed_ms } => Ok((hits, total, elapsed_ms)),
        IpcResponse::Error { message } => Err(message),
        _ => Err(text::copied("管道响应异常")),
    }
}

// ---- reaching the service -----------------------------------------------------------------

/// Where the service listens: the default where the settings name nothing.
pub open spec fn endpoint(pipe_name: Seq<char>, default: Seq<char>) -> Seq<char> {
    let p = text::trimmed(pipe_name);
    if p.len() == 0 {
        default
    } else {
        pipe_server::pipe_path(p)
    }
}

pub fn normalize_pipe(pipe_name: &str, default: &str) -> (r: String)
    ensures
        r@ == endpoint(pipe_name@, default@),
{
    let p = text::trim(pipe_name);
    if p.as_str().is_empty() {
        text::copied(default)
    } else {
        pipe_server::normalize_pipe_path(&p)
    }
}

/// Why the service cannot be reached; `code` is the code of the system where there is one.
pub fn map_pipe_open_err(code: Option<i32>, error: &str) -> (r: String)
    ensures
        r@ == (if code == Some(2i32) {
            "无法连接 findx2-service：端点不存在（服务未在监听或仍在加载大索引）。请点「启动服务」。"@
        } else if code == Some(5i32) {
            "无法连接 findx2-service：拒绝访问。"@
        } else {
            "无法连接 findx2-service: "@ + error@
        }),
{
    match code {
        Some(c) => {
            if c == 2 {
                return text::copied(
                    "无法连接 findx2-service：端点不存在（服务未在监听或仍在加载大索引）。请点「启动服务」。",
                );
            }
            if c == 5 {
                return text::copied("无法连接 findx2-service：拒绝访问。");
            }
        },
        None => {},
    }
    let mut s = text::copied("无法连接 findx2-service: ");
    s.push_str(error);
    s
}

/// What is sent stays within the limits whatever is asked for.
pub proof fn law_limit_in_range(limit: Option<u32>, of_settings: u32)
    ensures
        1 <= sent_limit(limit, of_settings) <= MAX_HITS,
{
}

/// The window shows of a hit its own name, path, size, kind and highlights, and its last change in
/// seconds since 1970.
pub proof fn law_shown_hit(style: PathStyle, d: SearchHitDto)
    ensures
        ({
            let s = shown_hit(style, d);
            &&& s.name == d.name@ && s.path == d.path@
            &&& s.size == d.size
            &&& s.is_directory == d.is_directory
            &&& s.name_highlight == d.name_highlight@
            &&& s.created_unix == 0
            &&& d.mtime >= 116_444_736_000_000_000 ==> s.modified_unix * 10_000_000 <= d.mtime
                - 116_444_736_000_000_000 < (s.modified_unix + 1) * 10_000_000
            &&& d.mtime < 116_444_736_000_000_000 ==> s.modified_unix == 0
        }),
{
}

/// The query that is sent ends in the extension to search, where one is given, and begins with the
/// text without the white space around it.
pub proof fn law_sent_query(query: Seq<char>, e: Seq<char>)
    ensures
        sent_query(query, None) == text::trimmed(query),
        e.len() == 0 ==> sent_query(query, Some(e)) == text::trimmed(query),
        e.len() > 0 ==> ({
            let q = sent_query(query, Some(e));
            let n = text::trimmed(query).len() as int;
            &&& q.take(n) == text::trimmed(query)
            &&& q.subrange(n, n + 5) == " ext:"@
            &&& q.skip(n + 5) == e
        }),
{
    reveal_strlit(" ext:");
    let t = text::trimmed(query);
    if e.len() > 0 {
        let q = t + " ext:"@ + e;
        let n = t.len() as int;
        assert(q.take(n) =~= t);
        assert(q.subrange(n, n + 5) =~= " ext:"@);
        assert(q.skip(n + 5) =~= e);
    }
}

/// The limit of the request wins over that of the settings; both are brought into the range from 1
/// to 8192.
pub proof fn law_sent_limit(limit: u32, of_settings: u32)
    ensures
        sent_limit(Some(limit), of_settings) == (if limit == 0 {
            1u32
        } else if limit > 8192 {
            8192
        } else {
            limit
        }),
        sent_limit(None, of_settings) == sent_limit(Some(of_settings), limit),
{
}

/// A pipe without a name is the default one; a bare name is one below the pipe directory, and a full path stays
/// as it is.
pub proof fn law_pipe_asked(name: Seq<char>, default: Seq<char>)
    ensures
        text::trimmed(name).len() == 0 ==> endpoint(name, default) == default,
        text::trimmed(name).len() > 0 && !text::begins_with(text::trimmed(name), "\\\\"@) ==> endpoint(
            name,
            default,
        ) == "\\\\.\\pipe\\"@ + text::trimmed(name),
        text::trimmed(name).len() > 0 && text::begins_with(text::trimmed(name), "\\\\"@) ==> endpoint(
            name,
            default,
        ) == text::trimmed(name),
{
}

} // verus!
