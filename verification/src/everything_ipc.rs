//! The wire protocol of Everything-compatible clients: version and state questions, queries as
//! they arrive in a copied data block, and the result lists that are sent back.
use vstd::prelude::*;
use crate::bytes;
use crate::text;
use crate::utf16;

verus! {

// ---- questions about the service ----------------------------------------------------------

/// What the service knows about itself when a client asks.
#[derive(Debug, Clone, Copy)]
pub struct ServiceFacts {
    /// The number of the processor architecture.
    pub target_machine: i64,
    pub loaded: bool,
    pub busy: bool,
}

/// The answer to each question; an unknown question is answered with zero.
pub open spec fn wm_user_answer(cmd: u64, f: ServiceFacts) -> i64 {
    if cmd == 0 {
        1
    } else if cmd == 1 {
        4
    } else if cmd == 2 {
        1
    } else if cmd == 3 {
        1026
    } else if cmd == 5 {
        f.target_machine
    } else if cmd == 400 {
        1
    } else if cmd == 401 {
        if f.loaded {
            1
        } else {
            0
        }
    } else if cmd == 402 {
        if f.busy {
            1
        } else {
            0
        }
    } else if cmd == 410 || cmd == 411 {
        1
    } else {
        0
    }
}

pub fn handle_wm_user(cmd: u64, f: ServiceFacts) -> (r: i64)
    ensures
        r == wm_user_answer(cmd, f),
{
    if cmd == 0 {
        1
    } else if cmd == 1 {
        4
    } else if cmd == 2 {
        1
    } else if cmd == 3 {
        1026
    } else if cmd == 5 {
        f.target_machine
    } else if cmd == 400 {
        1
    } else if cmd == 401 {
        if f.loaded {
            1
        } else {
            0
        }
    } else if cmd == 402 {
        if f.busy {
            1
        } else {
            0
        }
    } else if cmd == 410 || cmd == 411 {
        1
    } else {
        0
    }
}

/// The index is busy where the build says so, or where an index is loaded whose sizes and times
/// are not complete.
pub fn db_busy_now(build_busy: Option<bool>, metadata_ready: Option<bool>) -> (r: bool)
    ensures
        r == (build_busy == Some(true) || metadata_ready == Some(false)),
{
    match build_busy {
        Some(b) => {
            if b {
                return true;
            }
        },
        None => {},
    }
    match metadata_ready {
        Some(ready) => !ready,
        None => false,
    }
}

/// The index is loaded where there is one with entries.
pub fn db_is_loaded(entry_count: Option<u64>) -> (r: bool)
    ensures
        r == (entry_count matches Some(n) && n > 0),
{
    match entry_count {
        Some(n) => n > 0,
        None => false,
    }
}

/// The number of the processor architecture.
pub fn target_machine_value(arch: &str) -> (r: i64)
    ensures
        r == (if arch@ == "x86"@ {
            1int
        } else if arch@ == "aarch64"@ {
            3
        } else {
            2
        }),
{
    if text::same_text(arch, "x86") {
        1
    } else if text::same_text(arch, "aarch64") {
        3
    } else {
        2
    }
}

// ---- queries ------------------------------------------------------------------------------

/// The columns that results can be sorted by.
#[derive(Debug, Clone, Copy, PartialEq, Eq, Structural)]
pub enum SortField {
    Name,
    Path,
    Size,
    Created,
    Modified,
}

/// Sort column and whether descending, for the sort numbers of the protocol: odd numbers ascend,
/// even ones descend; columns that the index does not have fall back to the name, and a number
/// outside the table sorts by name ascending.
pub open spec fn sort_of(t: u32) -> (SortField, bool) {
    let desc = t % 2 == 0;
    if t < 1 || t > 26 {
        (SortField::Name, false)
    } else if t == 3 || t == 4 {
        (SortField::Path, desc)
    } else if t == 5 || t == 6 {
        (SortField::Size, desc)
    } else if t == 11 || t == 12 {
        (SortField::Created, desc)
    } else if t == 13 || t == 14 || t == 21 || t == 22 {
        (SortField::Modified, desc)
    } else {
        (SortField::Name, desc)
    }
}

pub fn map_sort_type(t: u32) -> (r: (SortField, bool))
    ensures
        r == sort_of(t),
{
    let desc = t % 2 == 0;
    if t < 1 || t > 26 {
        (SortField::Name, false)
    } else if t == 3 || t == 4 {
        (SortField::Path, desc)
    } else if t == 5 || t == 6 {
        (SortField::Size, desc)
    } else if t == 11 || t == 12 {
        (SortField::Created, desc)
    } else if t == 13 || t == 14 || t == 21 || t == 22 {
        (SortField::Modified, desc)
    } else {
        (SortField::Name, desc)
    }
}

/// The text of a byte run as `String::from_utf8_lossy` reads it.
pub uninterp spec fn lossy_text(b: Seq<u8>) -> Seq<char>;

/// `String::from_utf8_lossy`: a function of the bytes; bytes that are UTF-8 are read as they are,
/// anything else is replaced in a way that is not spelled out here.
#[verifier::external_body]
pub(crate) fn utf8_lossy(b: &[u8]) -> (r: String)
    ensures
        r@ == lossy_text(b@),
        vstd::utf8::valid_utf8(b@) ==> vstd::utf8::encode_utf8(r@) == b@,
{
    String::from_utf8_lossy(b).into_owned()
}

/// The bytes before the first zero, or all of them.
pub open spec fn bytes_until_zero(b: Seq<u8>) -> Seq<u8>
    decreases b.len(),
{
    if b.len() == 0 || b[0] == 0 {
        Seq::empty()
    } else {
        seq![b[0]] + bytes_until_zero(b.drop_first())
    }
}

proof fn lemma_bytes_until_zero(b: Seq<u8>, i: int)
    requires
        0 <= i <= b.len(),
        forall|k: int| 0 <= k < i ==> b[k] != 0,
        i < b.len() ==> b[i] == 0,
    ensures
        bytes_until_zero(b) == b.take(i),
    decreases b.len(),
{
    if i > 0 {
        let t = b.drop_first();
        assert forall|k: int| 0 <= k < i - 1 implies t[k] != 0 by {
            assert(t[k] == b[k + 1]);
        }
        lemma_bytes_until_zero(t, i - 1);
        assert(seq![b[0]] + t.take(i - 1) =~= b.take(i));
    } else {
        assert(b.take(0) =~= Seq::empty());
    }
}

/// A zero-terminated wide string.
pub fn extract_wstring(data: &[u8]) -> (r: String)
    ensures
        r@ == utf16::decoded(utf16::until_zero(utf16::le_units(data@))),
{
    utf16::from_wide_bytes(data)
}

/// A zero-terminated narrow string.
pub fn extract_astring(data: &[u8]) -> (r: String)
    ensures
        r@ == lossy_text(bytes_until_zero(data@)),
{
    let n: usize = data.len();
    let mut end: usize = 0;
    while end < n && data[end] != 0
        invariant
            n == data@.len(),
            end <= n,
            forall|k: int| 0 <= k < end ==> data@[k] != 0,
        decreases n - end,
    {
        end += 1;
    }
    let head = crate::usn::slice_between(data, 0, end);
    proof {
        lemma_bytes_until_zero(data@, end as int);
        assert(head@ =~= data@.take(end as int));
    }
    utf8_lossy(&head)
}

/// The search text at offset `off` of a request.
pub open spec fn search_text(data: Seq<u8>, off: int, wide: bool) -> Seq<char> {
    let rest = data.subrange(off, data.len() as int);
    if wide {
        utf16::decoded(utf16::until_zero(utf16::le_units(rest)))
    } else {
        lossy_text(bytes_until_zero(rest))
    }
}

/// A query of a client.
#[derive(Debug)]
pub struct QueryRequest {
    /// The newer form, whose reply carries the requested columns only.
    pub columns: bool,
    pub wide: bool,
    pub reply_msg: u32,
    pub search_flags: u32,
    pub offset: u32,
    pub max: u32,
    pub request_flags: u32,
    pub sort_by: SortField,
    pub sort_desc: bool,
    pub text: String,
}

pub struct QueryRequestView {
    pub columns: bool,
    pub wide: bool,
    pub reply_msg: u32,
    pub search_flags: u32,
    pub offset: u32,
    pub max: u32,
    pub request_flags: u32,
    pub sort_by: SortField,
    pub sort_desc: bool,
    pub text: Seq<char>,
}

impl View for QueryRequest {
    type V = QueryRequestView;

    open spec fn view(&self) -> QueryRequestView {
        QueryRequestView {
            columns: self.columns,
            wide: self.wide,
            reply_msg: self.reply_msg,
            search_flags: self.search_flags,
            offset: self.offset,
            max: self.max,
            request_flags: self.request_flags,
            sort_by: self.sort_by,
            sort_desc: self.sort_desc,
            text: self.text@,
        }
    }
}

/// What a copied data block asks for.
#[derive(Debug)]
pub enum CopyDataAction {
    /// Nothing to do but to answer with this number.
    Answer(i64),
    Query(QueryRequest),
}

pub enum CopyDataView {
    Answer(i64),
    Query(QueryRequestView),
}

impl View for CopyDataAction {
    type V = CopyDataView;

    open spec fn view(&self) -> CopyDataView {
        match *self {
            CopyDataAction::Answer(n) => CopyDataView::Answer(n),
            CopyDataAction::Query(q) => CopyDataView::Query(q@),
        }
    }
}

/// Zero results asked for means a hundred.
pub open spec fn max_or_default(max: u32) -> u32 {
    if max == 0 {
        100
    } else {
        max
    }
}

/// A query of the older form: limit, offset, reply number, flags, window, text. One that is too
/// short or has no reply number is refused.
pub open spec fn query1(data: Seq<u8>, wide: bool) -> CopyDataView {
    if data.len() < 20 || bytes::u32_at(data, 8) == 0 {
        CopyDataView::Answer(0)
    } else {
        CopyDataView::Query(
            QueryRequestView {
                columns: false,
                wide,
                reply_msg: bytes::u32_at(data, 8),
                search_flags: bytes::u32_at(data, 12),
                offset: bytes::u32_at(data, 4),
                max: max_or_default(bytes::u32_at(data, 0)),
                request_flags: 0,
                sort_by: SortField::Name,
                sort_desc: false,
                text: search_text(data, 20, wide),
            },
        )
    }
}

/// A query of the newer form: window, reply number, flags, offset, limit, columns, sort, text.
pub open spec fn query2(data: Seq<u8>, wide: bool) -> CopyDataView {
    if data.len() < 28 {
        CopyDataView::Answer(0)
    } else {
        CopyDataView::Query(
            QueryRequestView {
                columns: true,
                wide,
                reply_msg: bytes::u32_at(data, 4),
                search_flags: bytes::u32_at(data, 8),
                offset: bytes::u32_at(data, 12),
                max: max_or_default(bytes::u32_at(data, 16)),
                request_flags: bytes::u32_at(data, 20),
                sort_by: sort_of(bytes::u32_at(data, 24)).0,
                sort_desc: sort_of(bytes::u32_at(data, 24)).1,
                text: search_text(data, 28, wide),
            },
        )
    }
}

/// What a data block with number `code` asks for: command lines and new run counts are
/// acknowledged, run counts are zero, queries are looked into, anything else is answered with
/// zero.
pub open spec fn copydata(code: i64, data: Seq<u8>) -> CopyDataView {
    if code == 0 || code == 21 || code == 22 {
        CopyDataView::Answer(1)
    } else if code == 1 {
        query1(data, false)
    } else if code == 2 {
        query1(data, true)
    } else if code == 17 {
        query2(data, false)
    } else if code == 18 {
        query2(data, true)
    } else {
        CopyDataView::Answer(0)
    }
}

fn text_at(data: &[u8], off: usize, wide: bool) -> (r: String)
    requires
        off <= data@.len(),
    ensures
        r@ == search_text(data@, off as int, wide),
{
    let n: usize = data.len();
    let rest = crate::usn::slice_between(data, off, n);
    if wide {
        extract_wstring(&rest)
    } else {
        extract_astring(&rest)
    }
}

fn default_max(max: u32) -> (r: u32)
    ensures
        r == max_or_default(max),
{
    if max == 0 {
        100
    } else {
        max
    }
}

/// Reads a query of the older form.
pub fn handle_query(data: &[u8], wide: bool) -> (r: CopyDataAction)
    ensures
        r@ == query1(data@, wide),
{
    if data.len() < 20 {
        return CopyDataAction::Answer(0);
    }
    let reply_msg: u32 = bytes::read_u32(data, 8);
    if reply_msg == 0 {
        return CopyDataAction::Answer(0);
    }
    CopyDataAction::Query(
        QueryRequest {
            columns: false,
            wide,
            reply_msg,
            search_flags: bytes::read_u32(data, 12),
            offset: bytes::read_u32(data, 4),
            max: default_max(bytes::read_u32(data, 0)),
            request_flags: 0,
            sort_by: SortField::Name,
            sort_desc: false,
            text: text_at(data, 20, wide),
        },
    )
}

/// Reads a query of the newer form.
pub fn handle_query2(data: &[u8], wide: bool) -> (r: CopyDataAction)
    ensures
        r@ == query2(data@, wide),
{
    if data.len() < 28 {
        return CopyDataAction::Answer(0);
    }
    let sort = map_sort_type(bytes::read_u32(data, 24));
    CopyDataAction::Query(
        QueryRequest {
            columns: true,
            wide,
            reply_msg: bytes::read_u32(data, 4),
            search_flags: bytes::read_u32(data, 8),
            offset: bytes::read_u32(data, 12),
            max: default_max(bytes::read_u32(data, 16)),
            request_flags: bytes::read_u32(data, 20),
            sort_by: sort.0,
            sort_desc: sort.1,
            text: text_at(data, 28, wide),
        },
    )
}

/// Decides what a copied data block asks for.
pub fn handle_copydata(code: i64, data: &[u8]) -> (r: CopyDataAction)
    ensures
        r@ == copydata(code, data@),
{
    if code == 0 || code == 21 || code == 22 {
        CopyDataAction::Answer(1)
    } else if code == 1 {
        handle_query(data, false)
    } else if code == 2 {
        handle_query(data, true)
    } else if code == 17 {
        handle_query2(data, false)
    } else if code == 18 {
        handle_query2(data, true)
    } else {
        CopyDataAction::Answer(0)
    }
}

// ---- searching ----------------------------------------------------------------------------

pub const FLAG_REGEX: u32 = 0x0001;
pub const FLAG_MATCH_CASE: u32 = 0x0002;
pub const FLAG_MATCH_WHOLE_WORD: u32 = 0x0004;
pub const FLAG_MATCH_PATH: u32 = 0x0008;
/// No query returns more hits than this.
pub const HIT_LIMIT: u32 = 8192;

/// The parts of a parsed search that the protocol can change.
#[derive(Debug)]
pub struct ParsedQuery {
    pub case_sensitive: bool,
    pub whole_word: bool,
    /// Match the file name only.
    pub nowfn: bool,
    pub regex_pattern: Option<String>,
    pub name_terms: Vec<String>,
    pub substring: Option<String>,
    pub limit: u32,
    pub sort_by: SortField,
    pub sort_desc: bool,
}

pub struct ParsedQueryView {
    pub case_sensitive: bool,
    pub whole_word: bool,
    pub nowfn: bool,
    pub regex_pattern: Option<Seq<char>>,
    pub name_terms: Seq<Seq<char>>,
    pub substring: Option<Seq<char>>,
    pub limit: u32,
    pub sort_by: SortField,
    pub sort_desc: bool,
}

impl View for ParsedQuery {
    type V = ParsedQueryView;

    open spec fn view(&self) -> ParsedQueryView {
        ParsedQueryView {
            case_sensitive: self.case_sensitive,
            whole_word: self.whole_word,
            nowfn: self.nowfn,
            regex_pattern: text::opt_view(self.regex_pattern),
            name_terms: text::texts(self.name_terms@),
            substring: text::opt_view(self.substring),
            limit: self.limit,
            sort_by: self.sort_by,
            sort_desc: self.sort_desc,
        }
    }
}

/// The search with its terms taken as one regular expression, where it has none yet: the name
/// terms with blanks between them, else a substring that is not empty.
pub open spec fn as_regex(q: ParsedQueryView) -> ParsedQueryView {
    if q.regex_pattern is Some {
        q
    } else if q.name_terms.len() > 0 {
        ParsedQueryView {
            regex_pattern: Some(text::joined(q.name_terms, " "@)),
            name_terms: Seq::empty(),
            substring: None,
            ..q
        }
    } else {
        match q.substring {
            Some(s) => if s.len() > 0 {
                ParsedQueryView { regex_pattern: Some(s), substring: None, ..q }
            } else {
                q
            },
            None => q,
        }
    }
}

/// The search with the flags of the request taken in.
pub open spec fn with_flags(q: ParsedQueryView, flags: u32) -> ParsedQueryView {
    let plain = ParsedQueryView {
        case_sensitive: q.case_sensitive || flags & FLAG_MATCH_CASE != 0,
        whole_word: q.whole_word || flags & FLAG_MATCH_WHOLE_WORD != 0,
        nowfn: q.nowfn && flags & FLAG_MATCH_PATH == 0,
        ..q
    };
    if flags & FLAG_REGEX != 0 {
        as_regex(plain)
    } else {
        plain
    }
}

pub fn apply_ipc_search_flags(pq: &mut ParsedQuery, flags: u32)
    ensures
        final(pq)@ == with_flags(old(pq)@, flags),
{
    if flags & FLAG_MATCH_CASE != 0 {
        pq.case_sensitive = true;
    }
    if flags & FLAG_MATCH_WHOLE_WORD != 0 {
        pq.whole_word = true;
    }
    if flags & FLAG_MATCH_PATH != 0 {
        pq.nowfn = false;
    }
    if flags & FLAG_REGEX != 0 && pq.regex_pattern.is_none() {
        if pq.name_terms.len() > 0 {
            let s = text::join(&pq.name_terms, " ");
            pq.name_terms = Vec::new();
            pq.substring = None;
            pq.regex_pattern = Some(s);
            assert(text::texts(pq.name_terms@) =~= Seq::empty());
        } else {
            let taken = match &pq.substring {
                Some(s) => if !s.as_str().is_empty() {
                    Some(text::copied(s))
                } else {
                    None
                },
                None => None,
            };
            match taken {
                Some(s) => {
                    pq.substring = None;
                    pq.regex_pattern = Some(s);
                },
                None => {},
            }
        }
    }
}

/// The flags only ever add restrictions of case and word, and asking twice is asking once.
pub proof fn law_flags_idempotent(q: ParsedQueryView, flags: u32)
    ensures
        with_flags(with_flags(q, flags), flags) == with_flags(q, flags),
        q.case_sensitive ==> with_flags(q, flags).case_sensitive,
        q.whole_word ==> with_flags(q, flags).whole_word,
        with_flags(q, 0) == q,
{
    assert(0u32 & 1 == 0) by (bit_vector);
    assert(0u32 & 2 == 0) by (bit_vector);
    assert(0u32 & 4 == 0) by (bit_vector);
    assert(0u32 & 8 == 0) by (bit_vector);
}

/// How many hits the search is asked for: all up to the end of the page, within the limit.
pub open spec fn hits_wanted(offset: u32, max: u32) -> u32 {
    if offset + max < HIT_LIMIT {
        (offset + max) as u32
    } else {
        HIT_LIMIT
    }
}

/// The parsed search as the request wants it carried out.
pub open spec fn search_for(q: ParsedQueryView, r: QueryRequestView) -> ParsedQueryView {
    ParsedQueryView {
        limit: hits_wanted(r.offset, r.max),
        sort_by: r.sort_by,
        sort_desc: r.sort_desc,
        ..with_flags(q, r.search_flags)
    }
}

/// Prepares a parsed search for a request.
pub fn prepare_search(pq: &mut ParsedQuery, req: &QueryRequest)
    ensures
        final(pq)@ == search_for(old(pq)@, req@),
{
    apply_ipc_search_flags(pq, req.search_flags);
    let total: u64 = req.offset as u64 + req.max as u64;
    pq.limit = if total < HIT_LIMIT as u64 {
        total as u32
    } else {
        HIT_LIMIT
    };
    pq.sort_by = req.sort_by;
    pq.sort_desc = req.sort_desc;
}

/// The text to search for; nothing where it is blank, which finds nothing.
pub fn query_text(req: &QueryRequest) -> (r: Option<String>)
    ensures
        match r {
            Some(t) => t@ == text::trimmed(req@.text) && t@.len() > 0,
            None => text::trimmed(req@.text).len() == 0,
        },
{
    let t = text::trim(&req.text);
    if t.as_str().is_empty() {
        None
    } else {
        Some(t)
    }
}

// ---- hits ---------------------------------------------------------------------------------

/// A hit as the protocol carries it.
#[derive(Debug)]
pub struct IpcHit {
    pub full_path: String,
    pub name: String,
    pub parent: String,
    pub is_dir: bool,
    pub size: u64,
    pub mtime: u64,
    pub ctime: u64,
    pub attrs: u32,
}

pub struct IpcHitView {
    pub full_path: Seq<char>,
    pub name: Seq<char>,
    pub parent: Seq<char>,
    pub is_dir: bool,
    pub size: u64,
    pub mtime: u64,
    pub ctime: u64,
    pub attrs: u32,
}

impl View for IpcHit {
    type V = IpcHitView;

    open spec fn view(&self) -> IpcHitView {
        IpcHitView {
            full_path: self.full_path@,
            name: self.name@,
            parent: self.parent@,
            is_dir: self.is_dir,
            size: self.size,
            mtime: self.mtime,
            ctime: self.ctime,
            attrs: self.attrs,
        }
    }
}

pub open spec fn hits(v: Seq<IpcHit>) -> Seq<IpcHitView> {
    v.map_values(|h: IpcHit| h@)
}

/// The folder of a path: what stands before its last backslash, nothing where it has none.
pub open spec fn parent_of(path: Seq<char>) -> Seq<char> {
    match text::before_last(path, '\\') {
        Some(p) => p,
        None => Seq::empty(),
    }
}

/// Makes a hit of a found entry; of the attributes the low eight bits are passed on.
pub fn ipc_hit_from_search(
    path: String,
    name: String,
    is_dir: bool,
    size: u64,
    mtime: u64,
    ctime: u64,
    attrs: u32,
) -> (r: IpcHit)
    ensures
        r@ == (IpcHitView {
            full_path: path@,
            name: name@,
            parent: parent_of(path@),
            is_dir,
            size,
            mtime,
            ctime,
            attrs: attrs & 0xff,
        }),
{
    let parent = match text::split_last(&path, '\\') {
        Some((a, _b)) => a,
        None => String::new(),
    };
    proof {
        if text::before_last(path@, '\\') is None {
            assert(parent@ =~= Seq::empty());
        }
    }
    IpcHit { full_path: path, name, parent, is_dir, size, mtime, ctime, attrs: attrs & 0xff }
}

// ---- replies ------------------------------------------------------------------------------

/// The extension of a file name: what stands after its last dot; nothing for a folder.
pub open spec fn extension_of(h: IpcHitView) -> Seq<char> {
    if h.is_dir {
        Seq::empty()
    } else {
        match text::after_last(h.name, '.') {
            Some(e) => e,
            None => Seq::empty(),
        }
    }
}

/// The texts of a hit that a reply can hold.
#[derive(Debug)]
pub struct HitTexts {
    pub name: String,
    pub parent: String,
    pub full_path: String,
    pub extension: String,
}

pub struct HitTextsView {
    pub name: Seq<char>,
    pub parent: Seq<char>,
    pub full_path: Seq<char>,
    pub extension: Seq<char>,
}

impl View for HitTexts {
    type V = HitTextsView;

    open spec fn view(&self) -> HitTextsView {
        HitTextsView {
            name: self.name@,
            parent: self.parent@,
            full_path: self.full_path@,
            extension: self.extension@,
        }
    }
}

/// The texts of a hit as bytes, without terminators. A wide reply holds UTF-16; a narrow one holds
/// the bytes of the code page of the machine, which only the machine knows.
#[derive(Debug)]
pub struct HitBytes {
    pub name: Vec<u8>,
    pub parent: Vec<u8>,
    pub full_path: Vec<u8>,
    pub extension: Vec<u8>,
}

pub struct HitBytesView {
    pub name: Seq<u8>,
    pub parent: Seq<u8>,
    pub full_path: Seq<u8>,
    pub extension: Seq<u8>,
}

impl View for HitBytes {
    type V = HitBytesView;

    open spec fn view(&self) -> HitBytesView {
        HitBytesView {
            name: self.name@,
            parent: self.parent@,
            full_path: self.full_path@,
            extension: self.extension@,
        }
    }
}

pub open spec fn all_texts(v: Seq<HitTexts>) -> Seq<HitTextsView> {
    v.map_values(|t: HitTexts| t@)
}

pub open spec fn all_bytes(v: Seq<HitBytes>) -> Seq<HitBytesView> {
    v.map_values(|b: HitBytes| b@)
}

pub open spec fn texts_of(h: IpcHitView) -> HitTextsView {
    HitTextsView {
        name: h.name,
        parent: h.parent,
        full_path: h.full_path,
        extension: extension_of(h),
    }
}

/// The texts of a hit in UTF-16.
pub open spec fn wide_texts(t: HitTextsView) -> HitBytesView {
    HitBytesView {
        name: utf16::wide_text(t.name),
        parent: utf16::wide_text(t.parent),
        full_path: utf16::wide_text(t.full_path),
        extension: utf16::wide_text(t.extension),
    }
}

/// The texts of the hits of a page.
pub open spec fn page_texts(page: Seq<IpcHitView>) -> Seq<HitTextsView> {
    page.map_values(|h: IpcHitView| texts_of(h))
}

/// The bytes of the texts of a page: UTF-16 in a wide reply, `local` in a narrow one.
pub open spec fn coded_page(
    page: Seq<IpcHitView>,
    local: Seq<HitBytesView>,
    wide: bool,
) -> Seq<HitBytesView> {
    if wide {
        page_texts(page).map_values(|t: HitTextsView| wide_texts(t))
    } else {
        local
    }
}

/// The zero that ends a string.
pub open spec fn terminator(wide: bool) -> Seq<u8> {
    if wide {
        seq![0u8, 0u8]
    } else {
        seq![0u8]
    }
}

/// A zero-terminated string of the given bytes.
pub open spec fn z_string(b: Seq<u8>, wide: bool) -> Seq<u8> {
    b + terminator(wide)
}

/// How many units the bytes of a text are: two bytes make a wide one.
pub open spec fn text_units(b: Seq<u8>, wide: bool) -> nat {
    if wide {
        b.len() / 2
    } else {
        b.len()
    }
}

fn extension_text(h: &IpcHit) -> (r: String)
    ensures
        r@ == extension_of(h@),
{
    let ext = if h.is_dir {
        String::new()
    } else {
        match text::split_last(&h.name, '.') {
            Some((_a, b)) => b,
            None => String::new(),
        }
    };
    proof {
        assert(ext@ =~= extension_of(h@));
    }
    ext
}

fn hit_texts(h: &IpcHit) -> (r: HitTexts)
    ensures
        r@ == texts_of(h@),
{
    HitTexts {
        name: text::copied(&h.name),
        parent: text::copied(&h.parent),
        full_path: text::copied(&h.full_path),
        extension: extension_text(h),
    }
}

fn wide_hit(h: &IpcHit) -> (r: HitBytes)
    ensures
        r@ == wide_texts(texts_of(h@)),
{
    let extension = extension_text(h);
    HitBytes {
        name: utf16::to_wide_bytes(&h.name),
        parent: utf16::to_wide_bytes(&h.parent),
        full_path: utf16::to_wide_bytes(&h.full_path),
        extension: utf16::to_wide_bytes(&extension),
    }
}

/// The texts of a page in UTF-16.
fn wide_page(v: &Vec<IpcHit>, start: usize, count: usize) -> (r: Vec<HitBytes>)
    requires
        start + count <= v@.len(),
    ensures
        all_bytes(r@) == coded_page(
            page_of(hits(v@), start as int, count as int),
            Seq::empty(),
            true,
        ),
        r@.len() == count,
{
    let n: usize = v.len();
    let mut out: Vec<HitBytes> = Vec::new();
    let mut k: usize = 0;
    while k < count
        invariant
            k <= count,
            start + count <= n,
            n == v@.len(),
            out@.len() == k,
            forall|i: int|
                0 <= i < k ==> (#[trigger] out@[i])@ == wide_texts(texts_of(v@[start + i]@)),
        decreases count - k,
    {
        out.push(wide_hit(&v[start + k]));
        k += 1;
    }
    proof {
        let page = page_of(hits(v@), start as int, count as int);
        assert forall|i: int| 0 <= i < count implies all_bytes(out@)[i] == coded_page(
            page,
            Seq::empty(),
            true,
        )[i] by {
            assert(page[i] == v@[start + i]@);
            assert(all_bytes(out@)[i] == out@[i]@);
        }
        assert(all_bytes(out@) =~= coded_page(page, Seq::empty(), true));
    }
    out
}

fn push_terminator(out: &mut Vec<u8>, wide: bool)
    ensures
        final(out)@ == old(out)@ + terminator(wide),
{
    out.push(0);
    if wide {
        out.push(0);
    }
    assert(out@ =~= old(out)@ + terminator(wide));
}

fn push_z_string(out: &mut Vec<u8>, b: &Vec<u8>, wide: bool)
    ensures
        final(out)@ == old(out)@ + z_string(b@, wide),
{
    bytes::push_bytes(out, b);
    push_terminator(out, wide);
    assert(out@ =~= old(out)@ + z_string(b@, wide));
}

/// The folders, or the files, among hits.
pub open spec fn count_kind(s: Seq<IpcHitView>, dirs: bool) -> nat
    decreases s.len(),
{
    if s.len() == 0 {
        0
    } else {
        count_kind(s.drop_last(), dirs) + (if s.last().is_dir == dirs {
            1nat
        } else {
            0
        })
    }
}

proof fn lemma_count_bound(s: Seq<IpcHitView>, dirs: bool)
    ensures
        count_kind(s, dirs) <= s.len(),
        count_kind(s, true) + count_kind(s, false) == s.len(),
    decreases s.len(),
{
    if s.len() > 0 {
        lemma_count_bound(s.drop_last(), dirs);
    }
}

fn count_folders(v: &Vec<IpcHit>, from: usize, to: usize) -> (r: u32)
    requires
        from <= to <= v@.len(),
        v@.len() <= u32::MAX,
    ensures
        r == count_kind(hits(v@).subrange(from as int, to as int), true),
        r <= to - from,
{
    let mut n: u32 = 0;
    let mut i: usize = from;
    proof {
        assert(hits(v@).subrange(from as int, from as int) =~= Seq::empty());
    }
    while i < to
        invariant
            from <= i <= to <= v@.len(),
            v@.len() <= u32::MAX,
            n == count_kind(hits(v@).subrange(from as int, i as int), true),
            n <= i - from,
        decreases to - i,
    {
        proof {
            assert(hits(v@).subrange(from as int, i + 1).drop_last() =~= hits(v@).subrange(
                from as int,
                i as int,
            ));
            assert(hits(v@).subrange(from as int, i + 1).last() == v@[i as int]@);
        }
        if v[i].is_dir {
            n = n + 1;
        }
        i += 1;
    }
    n
}

/// The strings of the first `k` hits of a page: name and folder of each.
pub open spec fn page_strings(coded: Seq<HitBytesView>, k: int, wide: bool) -> Seq<u8>
    decreases k,
{
    if k <= 0 {
        Seq::empty()
    } else {
        page_strings(coded, k - 1, wide) + z_string(coded[k - 1].name, wide) + z_string(
            coded[k - 1].parent,
            wide,
        )
    }
}

pub open spec fn folder_flag(h: IpcHitView) -> u32 {
    if h.is_dir {
        1
    } else {
        0
    }
}

/// The table row of hit `k`: its kind and where its name and its folder start in the reply.
pub open spec fn page_row(
    page: Seq<IpcHitView>,
    coded: Seq<HitBytesView>,
    k: int,
    base: int,
    wide: bool,
) -> Seq<u8> {
    let at = base + page_strings(coded, k, wide).len();
    bytes::u32_bytes(folder_flag(page[k])) + bytes::u32_bytes(at as u32) + bytes::u32_bytes(
        (at + z_string(coded[k].name, wide).len()) as u32,
    )
}

pub open spec fn page_rows(
    page: Seq<IpcHitView>,
    coded: Seq<HitBytesView>,
    k: int,
    base: int,
    wide: bool,
) -> Seq<u8>
    decreases k,
{
    if k <= 0 {
        Seq::empty()
    } else {
        page_rows(page, coded, k - 1, base, wide) + page_row(page, coded, k - 1, base, wide)
    }
}

/// The page of `count` hits that starts at `start`.
pub open spec fn page_of(all: Seq<IpcHitView>, start: int, count: int) -> Seq<IpcHitView> {
    all.subrange(start, start + count)
}

/// The head of a reply to the older query form: folders, files and items in all, then on the page,
/// then the offset.
pub open spec fn list_head(all: Seq<IpcHitView>, page: Seq<IpcHitView>, offset: u32) -> Seq<u8> {
    bytes::u32_bytes(count_kind(all, true) as u32) + bytes::u32_bytes(
        count_kind(all, false) as u32,
    ) + bytes::u32_bytes(all.len() as u32) + bytes::u32_bytes(count_kind(page, true) as u32)
        + bytes::u32_bytes(count_kind(page, false) as u32) + bytes::u32_bytes(page.len() as u32)
        + bytes::u32_bytes(offset)
}

/// A reply to the older query form: head, one row per hit, then the strings.
pub open spec fn list_reply(
    all: Seq<IpcHitView>,
    page: Seq<IpcHitView>,
    coded: Seq<HitBytesView>,
    offset: u32,
    wide: bool,
) -> Seq<u8> {
    let n = page.len() as int;
    list_head(all, page, offset) + page_rows(page, coded, n, 28 + 12 * n, wide) + page_strings(
        coded,
        n,
        wide,
    )
}

/// Appends the row of the next hit to the table and its strings to the strings.
fn push_row(
    out: &mut Vec<u8>,
    strings: &mut Vec<u8>,
    h: &IpcHit,
    b: &HitBytes,
    page: Ghost<Seq<IpcHitView>>,
    coded: Ghost<Seq<HitBytesView>>,
    k: Ghost<int>,
    base: u64,
    wide: bool,
)
    requires
        0 <= k@ < page@.len(),
        page@[k@] == h@,
        coded@[k@] == b@,
        old(strings)@ == page_strings(coded@, k@, wide),
    ensures
        final(strings)@ == page_strings(coded@, k@ + 1, wide),
        final(out)@ == old(out)@ + page_row(page@, coded@, k@, base as int, wide),
{
    let at: u128 = base as u128 + strings.len() as u128;
    push_z_string(strings, &b.name, wide);
    let at2: u128 = base as u128 + strings.len() as u128;
    push_z_string(strings, &b.parent, wide);
    let flag: u32 = if h.is_dir {
        1
    } else {
        0
    };
    bytes::push_u32(out, flag);
    bytes::push_u32(out, at as u32);
    bytes::push_u32(out, at2 as u32);
    proof {
        let x = bytes::u32_bytes(flag);
        let y = bytes::u32_bytes(at as u32);
        let z = bytes::u32_bytes(at2 as u32);
        assert(old(out)@ + x + y + z =~= old(out)@ + (x + y + z));
    }
}

proof fn lemma_add_assoc(a: Seq<u8>, b: Seq<u8>, c: Seq<u8>)
    ensures
        (a + b) + c == a + (b + c),
{
    assert((a + b) + c =~= a + (b + c));
}

fn build_list(
    v: &Vec<IpcHit>,
    texts: &Vec<HitBytes>,
    offset: u32,
    start: usize,
    count: usize,
    wide: bool,
) -> (r: Vec<u8>)
    requires
        start + count <= v@.len(),
        v@.len() <= u32::MAX,
        texts@.len() == count,
    ensures
        r@ == list_reply(
            hits(v@),
            page_of(hits(v@), start as int, count as int),
            all_bytes(texts@),
            offset,
            wide,
        ),
{
    let ghost all = hits(v@);
    let ghost coded = all_bytes(texts@);
    let ghost page = page_of(all, start as int, count as int);
    let n: usize = v.len();
    let folders: u32 = count_folders(v, 0, n);
    let page_folders: u32 = count_folders(v, start, start + count);
    proof {
        assert(all.subrange(0, n as int) =~= all);
        lemma_count_bound(all, true);
        lemma_count_bound(page, true);
    }
    let mut out: Vec<u8> = Vec::new();
    bytes::push_u32(&mut out, folders);
    bytes::push_u32(&mut out, n as u32 - folders);
    bytes::push_u32(&mut out, n as u32);
    bytes::push_u32(&mut out, page_folders);
    bytes::push_u32(&mut out, count as u32 - page_folders);
    bytes::push_u32(&mut out, count as u32);
    bytes::push_u32(&mut out, offset);
    proof {
        assert(out@ =~= list_head(all, page, offset));
    }
    let base: u64 = 28 + 12 * (count as u64);
    let mut strings: Vec<u8> = Vec::new();
    let mut k: usize = 0;
    let ghost head = out@;
    proof {
        assert(out@ =~= head + page_rows(page, coded, 0, base as int, wide));
        assert(strings@ =~= page_strings(coded, 0, wide));
    }
    while k < count
        invariant
            k <= count,
            start + count <= v@.len(),
            all == hits(v@),
            coded == all_bytes(texts@),
            texts@.len() == count,
            page == page_of(all, start as int, count as int),
            v@.len() <= u32::MAX,
            out@ == head + page_rows(page, coded, k as int, base as int, wide),
            strings@ == page_strings(coded, k as int, wide),
        decreases count - k,
    {
        proof {
            assert(page[k as int] == v@[start + k]@);
            lemma_add_assoc(
                head,
                page_rows(page, coded, k as int, base as int, wide),
                page_row(page, coded, k as int, base as int, wide),
            );
        }
        push_row(
            &mut out,
            &mut strings,
            &v[start + k],
            &texts[k],
            Ghost(page),
            Ghost(coded),
            Ghost(k as int),
            base,
            wide,
        );
        k += 1;
    }
    bytes::push_bytes(&mut out, &strings);
    out
}

/// The reply to a wide query of the older form.
pub fn build_list_w(v: &Vec<IpcHit>, offset: u32, start: usize, count: usize) -> (r: Vec<u8>)
    requires
        start + count <= v@.len(),
        v@.len() <= u32::MAX,
    ensures
        ({
            let page = page_of(hits(v@), start as int, count as int);
            r@ == list_reply(
                hits(v@),
                page,
                coded_page(page, Seq::empty(), true),
                offset,
                true,
            )
        }),
{
    let texts = wide_page(v, start, count);
    build_list(v, &texts, offset, start, count, true)
}

/// The reply to a narrow query of the older form, with the texts of the page in the bytes of the
/// machine's code page.
pub fn build_list_a(
    v: &Vec<IpcHit>,
    local: &Vec<HitBytes>,
    offset: u32,
    start: usize,
    count: usize,
) -> (r: Vec<u8>)
    requires
        start + count <= v@.len(),
        v@.len() <= u32::MAX,
        local@.len() == count,
    ensures
        r@ == list_reply(
            hits(v@),
            page_of(hits(v@), start as int, count as int),
            all_bytes(local@),
            offset,
            false,
        ),
{
    build_list(v, local, offset, start, count, false)
}

/// A counted string: how many units, the text, and a zero.
pub open spec fn ipc_string(b: Seq<u8>, wide: bool) -> Seq<u8> {
    bytes::u32_bytes(text_units(b, wide) as u32) + b + terminator(wide)
}

/// The contents of column `i` for a hit: name, folder, path, extension, size, the four times,
/// attributes, list file, run count, run and change times, and the three highlighted texts.
/// What the index does not keep is empty or zero.
pub open spec fn column(h: IpcHitView, b: HitBytesView, i: int, wide: bool) -> Seq<u8> {
    if i == 0 || i == 13 {
        ipc_string(b.name, wide)
    } else if i == 1 || i == 14 {
        ipc_string(b.parent, wide)
    } else if i == 2 || i == 15 {
        ipc_string(b.full_path, wide)
    } else if i == 3 {
        ipc_string(b.extension, wide)
    } else if i == 4 {
        bytes::u64_bytes(h.size)
    } else if i == 5 {
        bytes::u64_bytes(h.ctime)
    } else if i == 6 {
        bytes::u64_bytes(h.mtime)
    } else if i == 8 {
        bytes::u32_bytes(h.attrs)
    } else if i == 9 {
        ipc_string(Seq::empty(), wide)
    } else if i == 10 {
        bytes::u32_bytes(0)
    } else {
        bytes::u64_bytes(0)
    }
}

/// The first `n` columns of a hit, those that the request flags ask for, in the order of the
/// flags.
pub open spec fn columns(
    h: IpcHitView,
    b: HitBytesView,
    flags: u32,
    n: int,
    wide: bool,
) -> Seq<u8>
    decreases n,
{
    if n <= 0 {
        Seq::empty()
    } else if flags & (1u32 << ((n - 1) as u32)) != 0 {
        columns(h, b, flags, n - 1, wide) + column(h, b, n - 1, wide)
    } else {
        columns(h, b, flags, n - 1, wide)
    }
}

/// Appends a counted string of the given bytes.
pub fn write_ipc_string(out: &mut Vec<u8>, b: &Vec<u8>, wide: bool)
    ensures
        final(out)@ == old(out)@ + ipc_string(b@, wide),
{
    let n: usize = if wide {
        b.len() / 2
    } else {
        b.len()
    };
    bytes::push_u32(out, n as u32);
    bytes::push_bytes(out, b);
    push_terminator(out, wide);
    proof {
        let x = bytes::u32_bytes(text_units(b@, wide) as u32);
        let z = terminator(wide);
        assert(old(out)@ + x + b@ + z =~= old(out)@ + (x + b@ + z));
    }
}

fn push_column(out: &mut Vec<u8>, h: &IpcHit, b: &HitBytes, i: u32, wide: bool)
    ensures
        final(out)@ == old(out)@ + column(h@, b@, i as int, wide),
{
    if i == 0 || i == 13 {
        write_ipc_string(out, &b.name, wide);
    } else if i == 1 || i == 14 {
        write_ipc_string(out, &b.parent, wide);
    } else if i == 2 || i == 15 {
        write_ipc_string(out, &b.full_path, wide);
    } else if i == 3 {
        write_ipc_string(out, &b.extension, wide);
    } else if i == 4 {
        bytes::push_u64(out, h.size);
    } else if i == 5 {
        bytes::push_u64(out, h.ctime);
    } else if i == 6 {
        bytes::push_u64(out, h.mtime);
    } else if i == 8 {
        bytes::push_u32(out, h.attrs);
    } else if i == 9 {
        let empty: Vec<u8> = Vec::new();
        proof {
            assert(empty@ =~= Seq::empty());
        }
        write_ipc_string(out, &empty, wide);
    } else if i == 10 {
        bytes::push_u32(out, 0);
    } else {
        bytes::push_u64(out, 0);
    }
}

/// Appends the columns that the flags ask for.
pub fn write_item2_payload(out: &mut Vec<u8>, h: &IpcHit, b: &HitBytes, flags: u32, wide: bool)
    ensures
        final(out)@ == old(out)@ + columns(h@, b@, flags, 16, wide),
{
    let mut i: u32 = 0;
    let ghost start = out@;
    proof {
        assert(start + columns(h@, b@, flags, 0, wide) =~= start);
    }
    while i < 16
        invariant
            i <= 16,
            out@ == start + columns(h@, b@, flags, i as int, wide),
        decreases 16 - i,
    {
        proof {
            lemma_add_assoc(
                start,
                columns(h@, b@, flags, i as int, wide),
                column(h@, b@, i as int, wide),
            );
        }
        if flags & (1u32 << i) != 0 {
            push_column(out, h, b, i, wide);
        }
        i += 1;
    }
}

/// The columns of the first `k` hits of a page.
pub open spec fn page_columns(
    page: Seq<IpcHitView>,
    coded: Seq<HitBytesView>,
    k: int,
    flags: u32,
    wide: bool,
) -> Seq<u8>
    decreases k,
{
    if k <= 0 {
        Seq::empty()
    } else {
        page_columns(page, coded, k - 1, flags, wide) + columns(
            page[k - 1],
            coded[k - 1],
            flags,
            16,
            wide,
        )
    }
}

/// The row of hit `k`: its kind and where its columns start.
pub open spec fn column_row(
    page: Seq<IpcHitView>,
    coded: Seq<HitBytesView>,
    k: int,
    base: int,
    flags: u32,
    wide: bool,
) -> Seq<u8> {
    bytes::u32_bytes(folder_flag(page[k])) + bytes::u32_bytes(
        (base + page_columns(page, coded, k, flags, wide).len()) as u32,
    )
}

pub open spec fn column_rows(
    page: Seq<IpcHitView>,
    coded: Seq<HitBytesView>,
    k: int,
    base: int,
    flags: u32,
    wide: bool,
) -> Seq<u8>
    decreases k,
{
    if k <= 0 {
        Seq::empty()
    } else {
        column_rows(page, coded, k - 1, base, flags, wide) + column_row(
            page,
            coded,
            k - 1,
            base,
            flags,
            wide,
        )
    }
}

/// The head of a reply to the newer query form: hits in all, hits on the page, offset, columns and
/// the sort order.
pub open spec fn columns_head(
    all: Seq<IpcHitView>,
    page: Seq<IpcHitView>,
    offset: u32,
    flags: u32,
) -> Seq<u8> {
    bytes::u32_bytes(all.len() as u32) + bytes::u32_bytes(page.len() as u32) + bytes::u32_bytes(
        offset,
    ) + bytes::u32_bytes(flags) + bytes::u32_bytes(1)
}

/// A reply to the newer query form.
pub open spec fn columns_reply(
    all: Seq<IpcHitView>,
    page: Seq<IpcHitView>,
    coded: Seq<HitBytesView>,
    offset: u32,
    flags: u32,
    wide: bool,
) -> Seq<u8> {
    let n = page.len() as int;
    columns_head(all, page, offset, flags) + column_rows(page, coded, n, 20 + 8 * n, flags, wide)
        + page_columns(page, coded, n, flags, wide)
}

fn push_column_row(
    out: &mut Vec<u8>,
    payload: &mut Vec<u8>,
    h: &IpcHit,
    b: &HitBytes,
    page: Ghost<Seq<IpcHitView>>,
    coded: Ghost<Seq<HitBytesView>>,
    k: Ghost<int>,
    base: u64,
    flags: u32,
    wide: bool,
)
    requires
        0 <= k@ < page@.len(),
        page@[k@] == h@,
        coded@[k@] == b@,
        old(payload)@ == page_columns(page@, coded@, k@, flags, wide),
    ensures
        final(payload)@ == page_columns(page@, coded@, k@ + 1, flags, wide),
        final(out)@ == old(out)@ + column_row(page@, coded@, k@, base as int, flags, wide),
{
    let at: u128 = base as u128 + payload.len() as u128;
    write_item2_payload(payload, h, b, flags, wide);
    let flag: u32 = if h.is_dir {
        1
    } else {
        0
    };
    bytes::push_u32(out, flag);
    bytes::push_u32(out, at as u32);
    proof {
        lemma_add_assoc(old(out)@, bytes::u32_bytes(flag), bytes::u32_bytes(at as u32));
    }
}

fn build_columns(
    v: &Vec<IpcHit>,
    texts: &Vec<HitBytes>,
    offset: u32,
    start: usize,
    count: usize,
    flags: u32,
    wide: bool,
) -> (r: Vec<u8>)
    requires
        start + count <= v@.len(),
        v@.len() <= u32::MAX,
        texts@.len() == count,
    ensures
        r@ == columns_reply(
            hits(v@),
            page_of(hits(v@), start as int, count as int),
            all_bytes(texts@),
            offset,
            flags,
            wide,
        ),
{
    let ghost all = hits(v@);
    let ghost coded = all_bytes(texts@);
    let ghost page = page_of(all, start as int, count as int);
    let mut out: Vec<u8> = Vec::new();
    bytes::push_u32(&mut out, v.len() as u32);
    bytes::push_u32(&mut out, count as u32);
    bytes::push_u32(&mut out, offset);
    bytes::push_u32(&mut out, flags);
    bytes::push_u32(&mut out, 1);
    proof {
        assert(out@ =~= columns_head(all, page, offset, flags));
    }
    let base: u64 = 20 + 8 * (count as u64);
    let mut payload: Vec<u8> = Vec::new();
    let mut k: usize = 0;
    let ghost head = out@;
    proof {
        assert(out@ =~= head + column_rows(page, coded, 0, base as int, flags, wide));
        assert(payload@ =~= page_columns(page, coded, 0, flags, wide));
    }
    while k < count
        invariant
            k <= count,
            start + count <= v@.len(),
            v@.len() <= u32::MAX,
            all == hits(v@),
            coded == all_bytes(texts@),
            texts@.len() == count,
            page == page_of(all, start as int, count as int),
            out@ == head + column_rows(page, coded, k as int, base as int, flags, wide),
            payload@ == page_columns(page, coded, k as int, flags, wide),
        decreases count - k,
    {
        proof {
            assert(page[k as int] == v@[start + k]@);
            lemma_add_assoc(
                head,
                column_rows(page, coded, k as int, base as int, flags, wide),
                column_row(page, coded, k as int, base as int, flags, wide),
            );
        }
        push_column_row(
            &mut out,
            &mut payload,
            &v[start + k],
            &texts[k],
            Ghost(page),
            Ghost(coded),
            Ghost(k as int),
            base,
            flags,
            wide,
        );
        k += 1;
    }
    bytes::push_bytes(&mut out, &payload);
    out
}

/// The reply to a query of the newer form. A narrow reply holds the texts of the page in the bytes
/// of the machine's code page; a wide one has no use for `local`.
pub fn build_list2(
    v: &Vec<IpcHit>,
    local: &Vec<HitBytes>,
    offset: u32,
    start: usize,
    count: usize,
    flags: u32,
    wide: bool,
) -> (r: Vec<u8>)
    requires
        start + count <= v@.len(),
        v@.len() <= u32::MAX,
        !wide ==> local@.len() == count,
    ensures
        ({
            let page = page_of(hits(v@), start as int, count as int);
            r@ == columns_reply(
                hits(v@),
                page,
                coded_page(page, all_bytes(local@), wide),
                offset,
                flags,
                wide,
            )
        }),
{
    if wide {
        let texts = wide_page(v, start, count);
        build_columns(v, &texts, offset, start, count, flags, wide)
    } else {
        build_columns(v, local, offset, start, count, flags, wide)
    }
}

/// Where the page of a request starts: at its offset, but not past the last hit.
pub open spec fn page_start(len: int, offset: u32) -> int {
    if offset < len {
        offset as int
    } else {
        len
    }
}

/// How many hits the page holds: as many as asked for, as far as there are any.
pub open spec fn page_count(len: int, offset: u32, max: u32) -> int {
    let left = len - page_start(len, offset);
    if max < left {
        max as int
    } else {
        left
    }
}

/// The hits that the reply to a request holds.
pub open spec fn requested_page(all: Seq<IpcHitView>, r: QueryRequestView) -> Seq<IpcHitView> {
    let len = all.len() as int;
    page_of(all, page_start(len, r.offset), page_count(len, r.offset, r.max))
}

/// The reply to a request with the given hits; `local` holds the texts of a narrow reply.
pub open spec fn reply_of(
    all: Seq<IpcHitView>,
    local: Seq<HitBytesView>,
    r: QueryRequestView,
) -> Seq<u8> {
    let page = requested_page(all, r);
    let coded = coded_page(page, local, r.wide);
    if r.columns {
        columns_reply(all, page, coded, r.offset, r.request_flags, r.wide)
    } else {
        list_reply(all, page, coded, r.offset, r.wide)
    }
}

/// The texts that the machine has to put into its code page before a request can be replied to:
/// those of the requested page where the request is narrow.
pub open spec fn texts_wanted(all: Seq<IpcHitView>, r: QueryRequestView) -> Seq<HitTextsView> {
    if r.wide {
        Seq::empty()
    } else {
        page_texts(requested_page(all, r))
    }
}

/// Where the page of a request starts, and how many hits it holds.
fn page_bounds(n: usize, req: &QueryRequest) -> (r: (usize, usize))
    ensures
        r.0 == page_start(n as int, req.offset),
        r.1 == page_count(n as int, req.offset, req.max),
        r.0 + r.1 <= n,
{
    let start: usize = if (req.offset as u64) < n as u64 {
        req.offset as usize
    } else {
        n
    };
    let left: usize = n - start;
    let count: usize = if (req.max as u64) < left as u64 {
        req.max as usize
    } else {
        left
    };
    (start, count)
}

/// Lists the texts that the reply needs in the bytes of the machine's code page.
pub fn narrow_texts(v: &Vec<IpcHit>, req: &QueryRequest) -> (r: Vec<HitTexts>)
    ensures
        all_texts(r@) == texts_wanted(hits(v@), req@),
{
    let mut out: Vec<HitTexts> = Vec::new();
    if req.wide {
        assert(all_texts(out@) =~= texts_wanted(hits(v@), req@));
        return out;
    }
    let n: usize = v.len();
    let (start, count) = page_bounds(n, req);
    let mut k: usize = 0;
    while k < count
        invariant
            k <= count,
            start + count <= n,
            n == v@.len(),
            out@.len() == k,
            forall|i: int| 0 <= i < k ==> (#[trigger] out@[i])@ == texts_of(v@[start + i]@),
        decreases count - k,
    {
        out.push(hit_texts(&v[start + k]));
        k += 1;
    }
    proof {
        let page = requested_page(hits(v@), req@);
        assert(hits(v@).len() == n);
        assert forall|i: int| 0 <= i < count implies all_texts(out@)[i] == page_texts(page)[i] by {
            assert(page[i] == v@[start + i]@);
            assert(all_texts(out@)[i] == out@[i]@);
        }
        assert(all_texts(out@) =~= page_texts(page));
    }
    out
}

/// Builds the reply to a request: the page of hits in the form that the request asked for. For a
/// narrow request `local` holds the texts that it wants, in order, as bytes.
pub fn build_reply(v: &Vec<IpcHit>, local: &Vec<HitBytes>, req: &QueryRequest) -> (r: Vec<u8>)
    requires
        v@.len() <= u32::MAX,
        !req@.wide ==> local@.len() == texts_wanted(hits(v@), req@).len(),
    ensures
        r@ == reply_of(hits(v@), all_bytes(local@), req@),
{
    let n: usize = v.len();
    let (start, count) = page_bounds(n, req);
    proof {
        assert(hits(v@).len() == n);
    }
    if req.columns {
        build_list2(v, local, req.offset, start, count, req.request_flags, req.wide)
    } else if req.wide {
        build_list_w(v, req.offset, start, count)
    } else {
        build_list_a(v, local, req.offset, start, count)
    }
}

/// What is done about a query: where the search could be made it is acknowledged and replied to,
/// else it is answered with zero and nothing is sent.
pub fn answer_query(
    found: &Option<Vec<IpcHit>>,
    local: &Vec<HitBytes>,
    req: &QueryRequest,
) -> (r: (i64, Option<Vec<u8>>))
    requires
        found matches Some(v) ==> v@.len() <= u32::MAX && (!req@.wide ==> local@.len()
            == texts_wanted(hits(v@), req@).len()),
    ensures
        match *found {
            Some(v) => r.0 == 1 && (r.1 matches Some(b) && b@ == reply_of(
                hits(v@),
                all_bytes(local@),
                req@,
            )),
            None => r.0 == 0 && r.1 is None,
        },
{
    match found {
        Some(v) => (1, Some(build_reply(v, local, req))),
        None => (0, None),
    }
}

// ---- what a client finds in a reply -------------------------------------------------------

proof fn lemma_rows_len(
    page: Seq<IpcHitView>,
    coded: Seq<HitBytesView>,
    k: int,
    base: int,
    wide: bool,
)
    requires
        0 <= k <= page.len(),
    ensures
        page_rows(page, coded, k, base, wide).len() == 12 * k,
    decreases k,
{
    if k > 0 {
        lemma_rows_len(page, coded, k - 1, base, wide);
    }
}

proof fn lemma_row_in_rows(
    page: Seq<IpcHitView>,
    coded: Seq<HitBytesView>,
    k: int,
    n: int,
    base: int,
    wide: bool,
)
    requires
        0 <= k < n <= page.len(),
    ensures
        page_rows(page, coded, n, base, wide).len() == 12 * n,
        page_rows(page, coded, n, base, wide).subrange(12 * k, 12 * k + 12) == page_row(
            page,
            coded,

            k,
            base,
            wide,
        ),
    decreases n,
{
    lemma_rows_len(page, coded, n - 1, base, wide);
    lemma_rows_len(page, coded, n, base, wide);
    let rows = page_rows(page, coded, n, base, wide);
    let before = page_rows(page, coded, n - 1, base, wide);
    if k == n - 1 {
        assert(rows.subrange(12 * k, 12 * k + 12) =~= page_row(page, coded, k, base, wide));
    } else {
        lemma_row_in_rows(page, coded, k, n - 1, base, wide);
        assert(rows.subrange(12 * k, 12 * k + 12) =~= before.subrange(12 * k, 12 * k + 12));
    }
}

proof fn lemma_strings_in_page(coded: Seq<HitBytesView>, k: int, n: int, wide: bool)
    requires
        0 <= k < n,
    ensures
        ({
            let all = page_strings(coded, n, wide);
            let at = page_strings(coded, k, wide).len() as int;
            let name = z_string(coded[k].name, wide);
            let parent = z_string(coded[k].parent, wide);
            &&& at + name.len() + parent.len() <= all.len()
            &&& all.subrange(at, at + name.len()) == name
            &&& all.subrange(at + name.len(), at + name.len() + parent.len()) == parent
        }),
    decreases n,
{
    let all = page_strings(coded, n, wide);
    let before = page_strings(coded, n - 1, wide);
    let at = page_strings(coded, k, wide).len() as int;
    let name = z_string(coded[k].name, wide);
    let parent = z_string(coded[k].parent, wide);
    if k == n - 1 {
        assert(all.subrange(at, at + name.len()) =~= name);
        assert(all.subrange(at + name.len(), at + name.len() + parent.len()) =~= parent);
    } else {
        lemma_strings_in_page(coded, k, n - 1, wide);
        assert(all.subrange(at, at + name.len()) =~= before.subrange(at, at + name.len()));
        assert(all.subrange(at + name.len(), at + name.len() + parent.len()) =~= before.subrange(
            at + name.len(),
            at + name.len() + parent.len(),
        ));
    }
}

proof fn lemma_row_offsets(a: u32, b: u32, c: u32)
    ensures
        bytes::u32_at(bytes::u32_bytes(a) + bytes::u32_bytes(b) + bytes::u32_bytes(c), 0) == a,
        bytes::u32_at(bytes::u32_bytes(a) + bytes::u32_bytes(b) + bytes::u32_bytes(c), 4) == b,
        bytes::u32_at(bytes::u32_bytes(a) + bytes::u32_bytes(b) + bytes::u32_bytes(c), 8) == c,
{
    bytes::law_u32_round_trip(a);
    bytes::law_u32_round_trip(b);
    bytes::law_u32_round_trip(c);
    let s = bytes::u32_bytes(a) + bytes::u32_bytes(b) + bytes::u32_bytes(c);
    assert(s.subrange(0, 4) =~= bytes::u32_bytes(a).subrange(0, 4));
    assert(s.subrange(4, 8) =~= bytes::u32_bytes(b).subrange(0, 4));
    assert(s.subrange(8, 12) =~= bytes::u32_bytes(c).subrange(0, 4));
    bytes::lemma_read_shifted(s, bytes::u32_bytes(a), 0, 0);
    bytes::lemma_read_shifted(s, bytes::u32_bytes(b), 4, 0);
    bytes::lemma_read_shifted(s, bytes::u32_bytes(c), 8, 0);
}

/// Reading the numbers of a row that stands in a longer run.
proof fn lemma_read_row(r: Seq<u8>, row: Seq<u8>, at: int)
    requires
        0 <= at,
        row.len() == 12,
        at + 12 <= r.len(),
        r.subrange(at, at + 12) == row,
    ensures
        bytes::u32_at(r, at) == bytes::u32_at(row, 0),
        bytes::u32_at(r, at + 4) == bytes::u32_at(row, 4),
        bytes::u32_at(r, at + 8) == bytes::u32_at(row, 8),
{
    assert(r.subrange(at, at + 4) =~= row.subrange(0, 4)) by {
        assert(r.subrange(at, at + 12).subrange(0, 4) =~= r.subrange(at, at + 4));
    }
    assert(r.subrange(at + 4, at + 8) =~= row.subrange(4, 8)) by {
        assert(r.subrange(at, at + 12).subrange(4, 8) =~= r.subrange(at + 4, at + 8));
    }
    assert(r.subrange(at + 8, at + 12) =~= row.subrange(8, 12)) by {
        assert(r.subrange(at, at + 12).subrange(8, 12) =~= r.subrange(at + 8, at + 12));
    }
    bytes::lemma_read_shifted(r, row, at, 0);
    bytes::lemma_read_shifted(r, row, at + 4, 4);
    bytes::lemma_read_shifted(r, row, at + 8, 8);
}

/// A piece of the middle or of the last of three runs is a piece of all three together.
proof fn lemma_piece_of_three(a: Seq<u8>, b: Seq<u8>, c: Seq<u8>, i: int, j: int)
    requires
        0 <= i <= j,
    ensures
        j <= b.len() ==> (a + b + c).subrange(a.len() + i, a.len() + j) == b.subrange(i, j),
        j <= c.len() ==> (a + b + c).subrange(a.len() + b.len() + i, a.len() + b.len() + j)
            == c.subrange(i, j),
{
    let s = a + b + c;
    if j <= b.len() {
        assert(s.subrange(a.len() + i, a.len() + j) =~= b.subrange(i, j));
    }
    if j <= c.len() {
        assert(s.subrange(a.len() + b.len() + i, a.len() + b.len() + j) =~= c.subrange(i, j));
    }
}

proof fn lemma_head_len(all: Seq<IpcHitView>, page: Seq<IpcHitView>, offset: u32)
    ensures
        list_head(all, page, offset).len() == 28,
{
}

proof fn lemma_row_reads(
    page: Seq<IpcHitView>,
    coded: Seq<HitBytesView>,
    k: int,
    base: int,
    wide: bool,
)
    ensures
        ({
            let row = page_row(page, coded, k, base, wide);
            let at = base + page_strings(coded, k, wide).len();
            &&& row.len() == 12
            &&& bytes::u32_at(row, 0) == folder_flag(page[k])
            &&& bytes::u32_at(row, 4) == at as u32
            &&& bytes::u32_at(row, 8) == (at + z_string(coded[k].name, wide).len()) as u32
        }),
{
    let at = base + page_strings(coded, k, wide).len();
    lemma_row_offsets(
        folder_flag(page[k]),
        at as u32,
        (at + z_string(coded[k].name, wide).len()) as u32,
    );
}

/// In a reply to the older query form, the row of each hit says where its name and its folder
/// stand, and there they stand as zero-terminated strings; for every reply that a 32-bit offset
/// can address.
pub proof fn law_list_offsets(
    all: Seq<IpcHitView>,
    page: Seq<IpcHitView>,
    coded: Seq<HitBytesView>,
    offset: u32,
    wide: bool,
    k: int,
)
    requires
        0 <= k < page.len(),
        list_reply(all, page, coded, offset, wide).len() <= u32::MAX,
    ensures
        ({
            let r = list_reply(all, page, coded, offset, wide);
            let name_at = bytes::u32_at(r, 28 + 12 * k + 4) as int;
            let parent_at = bytes::u32_at(r, 28 + 12 * k + 8) as int;
            let name = z_string(coded[k].name, wide);
            let parent = z_string(coded[k].parent, wide);
            &&& bytes::u32_at(r, 28 + 12 * k) == folder_flag(page[k])
            &&& name_at + name.len() <= r.len()
            &&& r.subrange(name_at, name_at + name.len()) == name
            &&& parent_at + parent.len() <= r.len()
            &&& r.subrange(parent_at, parent_at + parent.len()) == parent
        }),
{
    lemma_head_len(all, page, offset);
    let n = page.len() as int;
    let base = 28 + 12 * n;
    lemma_row_in_rows(page, coded, k, n, base, wide);
    lemma_strings_in_page(coded, k, n, wide);
    lemma_row_reads(page, coded, k, base, wide);
    lemma_reply_pieces(
        list_head(all, page, offset),
        page_rows(page, coded, n, base, wide),
        page_strings(coded, n, wide),
        page_row(page, coded, k, base, wide),
        z_string(coded[k].name, wide),
        z_string(coded[k].parent, wide),
        page_strings(coded, k, wide).len() as int,
        k,
        n,
    );
}

proof fn lemma_reply_pieces(
    head: Seq<u8>,
    rows: Seq<u8>,
    strings: Seq<u8>,
    row: Seq<u8>,
    name: Seq<u8>,
    parent: Seq<u8>,
    at: int,
    k: int,
    n: int,
)
    requires
        0 <= k < n,
        head.len() == 28,
        rows.len() == 12 * n,
        row.len() == 12,
        rows.subrange(12 * k, 12 * k + 12) == row,
        0 <= at,
        at + name.len() + parent.len() <= strings.len(),
        strings.subrange(at, at + name.len()) == name,
        strings.subrange(at + name.len(), at + name.len() + parent.len()) == parent,
        (head + rows + strings).len() <= u32::MAX,
        bytes::u32_at(row, 4) == (28 + 12 * n + at) as u32,
        bytes::u32_at(row, 8) == (28 + 12 * n + at + name.len()) as u32,
    ensures
        ({
            let r = head + rows + strings;
            let name_at = bytes::u32_at(r, 28 + 12 * k + 4) as int;
            let parent_at = bytes::u32_at(r, 28 + 12 * k + 8) as int;
            &&& bytes::u32_at(r, 28 + 12 * k) == bytes::u32_at(row, 0)
            &&& name_at + name.len() <= r.len()
            &&& r.subrange(name_at, name_at + name.len()) == name
            &&& parent_at + parent.len() <= r.len()
            &&& r.subrange(parent_at, parent_at + parent.len()) == parent
        }),
{
    let r = head + rows + strings;
    lemma_piece_of_three(head, rows, strings, 12 * k, 12 * k + 12);
    lemma_piece_of_three(head, rows, strings, at, at + name.len());
    lemma_piece_of_three(head, rows, strings, at + name.len(), at + name.len() + parent.len());
    lemma_read_row(r, row, 28 + 12 * k);
}

proof fn lemma_column_rows_len(
    page: Seq<IpcHitView>,
    coded: Seq<HitBytesView>,
    k: int,
    base: int,
    flags: u32,
    wide: bool,
)
    requires
        0 <= k <= page.len(),
    ensures
        column_rows(page, coded, k, base, flags, wide).len() == 8 * k,
    decreases k,
{
    if k > 0 {
        lemma_column_rows_len(page, coded, k - 1, base, flags, wide);
    }
}

proof fn lemma_column_row_in_rows(
    page: Seq<IpcHitView>,
    coded: Seq<HitBytesView>,
    k: int,
    n: int,
    base: int,
    flags: u32,
    wide: bool,
)
    requires
        0 <= k < n <= page.len(),
    ensures
        column_rows(page, coded, n, base, flags, wide).len() == 8 * n,
        column_rows(page, coded, n, base, flags, wide).subrange(8 * k, 8 * k + 8) == column_row(
            page,
            coded,

            k,
            base,
            flags,
            wide,
        ),
    decreases n,
{
    lemma_column_rows_len(page, coded, n - 1, base, flags, wide);
    lemma_column_rows_len(page, coded, n, base, flags, wide);
    let rows = column_rows(page, coded, n, base, flags, wide);
    let before = column_rows(page, coded, n - 1, base, flags, wide);
    if k == n - 1 {
        assert(rows.subrange(8 * k, 8 * k + 8) =~= column_row(page, coded, k, base, flags, wide));
    } else {
        lemma_column_row_in_rows(page, coded, k, n - 1, base, flags, wide);
        assert(rows.subrange(8 * k, 8 * k + 8) =~= before.subrange(8 * k, 8 * k + 8));
    }
}

proof fn lemma_columns_in_page(
    page: Seq<IpcHitView>,
    coded: Seq<HitBytesView>,
    k: int,
    n: int,
    flags: u32,
    wide: bool,
)
    requires
        0 <= k < n <= page.len(),
    ensures
        ({
            let all = page_columns(page, coded, n, flags, wide);
            let at = page_columns(page, coded, k, flags, wide).len() as int;
            let own = columns(page[k], coded[k], flags, 16, wide);
            at + own.len() <= all.len() && all.subrange(at, at + own.len()) == own
        }),
    decreases n,
{
    let all = page_columns(page, coded, n, flags, wide);
    let before = page_columns(page, coded, n - 1, flags, wide);
    let at = page_columns(page, coded, k, flags, wide).len() as int;
    let own = columns(page[k], coded[k], flags, 16, wide);
    if k == n - 1 {
        assert(all.subrange(at, at + own.len()) =~= own);
    } else {
        lemma_columns_in_page(page, coded, k, n - 1, flags, wide);
        assert(all.subrange(at, at + own.len()) =~= before.subrange(at, at + own.len()));
    }
}

proof fn lemma_column_row_reads(
    page: Seq<IpcHitView>,
    coded: Seq<HitBytesView>,
    k: int,
    base: int,
    flags: u32,
    wide: bool,
)
    ensures
        ({
            let row = column_row(page, coded, k, base, flags, wide);
            &&& row.len() == 8
            &&& bytes::u32_at(row, 0) == folder_flag(page[k])
            &&& bytes::u32_at(row, 4) == (base + page_columns(
                page,
                coded,
                k,
                flags,
                wide,
            ).len()) as u32
        }),
{
    let a = folder_flag(page[k]);
    let b = (base + page_columns(page, coded, k, flags, wide).len()) as u32;
    let s = bytes::u32_bytes(a) + bytes::u32_bytes(b);
    bytes::law_u32_round_trip(a);
    bytes::law_u32_round_trip(b);
    assert(s.subrange(0, 4) =~= bytes::u32_bytes(a).subrange(0, 4));
    assert(s.subrange(4, 8) =~= bytes::u32_bytes(b).subrange(0, 4));
    bytes::lemma_read_shifted(s, bytes::u32_bytes(a), 0, 0);
    bytes::lemma_read_shifted(s, bytes::u32_bytes(b), 4, 0);
}

proof fn lemma_columns_head_len(
    all: Seq<IpcHitView>,
    page: Seq<IpcHitView>,
    offset: u32,
    flags: u32,
)
    ensures
        columns_head(all, page, offset, flags).len() == 20,
{
}

proof fn lemma_columns_pieces(
    head: Seq<u8>,
    rows: Seq<u8>,
    payload: Seq<u8>,
    row: Seq<u8>,
    own: Seq<u8>,
    at: int,
    k: int,
    n: int,
)
    requires
        0 <= k < n,
        head.len() == 20,
        rows.len() == 8 * n,
        row.len() == 8,
        rows.subrange(8 * k, 8 * k + 8) == row,
        0 <= at,
        at + own.len() <= payload.len(),
        payload.subrange(at, at + own.len()) == own,
        (head + rows + payload).len() <= u32::MAX,
        bytes::u32_at(row, 4) == (20 + 8 * n + at) as u32,
    ensures
        ({
            let r = head + rows + payload;
            let own_at = bytes::u32_at(r, 20 + 8 * k + 4) as int;
            &&& bytes::u32_at(r, 20 + 8 * k) == bytes::u32_at(row, 0)
            &&& own_at + own.len() <= r.len()
            &&& r.subrange(own_at, own_at + own.len()) == own
        }),
{
    let r = head + rows + payload;
    let p = 20 + 8 * k;
    lemma_piece_of_three(head, rows, payload, 8 * k, 8 * k + 8);
    lemma_piece_of_three(head, rows, payload, at, at + own.len());
    assert(r.subrange(p, p + 4) =~= row.subrange(0, 4)) by {
        assert(r.subrange(p, p + 8).subrange(0, 4) =~= r.subrange(p, p + 4));
    }
    assert(r.subrange(p + 4, p + 8) =~= row.subrange(4, 8)) by {
        assert(r.subrange(p, p + 8).subrange(4, 8) =~= r.subrange(p + 4, p + 8));
    }
    bytes::lemma_read_shifted(r, row, p, 0);
    bytes::lemma_read_shifted(r, row, p + 4, 4);
}

/// In a reply to the newer query form, the row of each hit says where its columns stand, and there
/// they stand; for every reply that a 32-bit offset can address.
pub proof fn law_column_offsets(
    all: Seq<IpcHitView>,
    page: Seq<IpcHitView>,
    coded: Seq<HitBytesView>,
    offset: u32,
    flags: u32,
    wide: bool,
    k: int,
)
    requires
        0 <= k < page.len(),
        columns_reply(all, page, coded, offset, flags, wide).len() <= u32::MAX,
    ensures
        ({
            let r = columns_reply(all, page, coded, offset, flags, wide);
            let at = bytes::u32_at(r, 20 + 8 * k + 4) as int;
            let own = columns(page[k], coded[k], flags, 16, wide);
            &&& bytes::u32_at(r, 20 + 8 * k) == folder_flag(page[k])
            &&& at + own.len() <= r.len()
            &&& r.subrange(at, at + own.len()) == own
        }),
{
    let n = page.len() as int;
    let base = 20 + 8 * n;
    lemma_columns_head_len(all, page, offset, flags);
    lemma_column_row_in_rows(page, coded, k, n, base, flags, wide);
    lemma_columns_in_page(page, coded, k, n, flags, wide);
    lemma_column_row_reads(page, coded, k, base, flags, wide);
    lemma_columns_pieces(
        columns_head(all, page, offset, flags),
        column_rows(page, coded, n, base, flags, wide),
        page_columns(page, coded, n, flags, wide),
        column_row(page, coded, k, base, flags, wide),
        columns(page[k], coded[k], flags, 16, wide),
        page_columns(page, coded, k, flags, wide).len() as int,
        k,
        n,
    );
}

/// A client that reads a wide string up to its zero gets back the text that was written, whatever
/// follows it; for every text without a zero character.
pub proof fn law_wide_string_reads_back(s: Seq<char>, rest: Seq<u8>)
    requires
        !s.contains('\0'),
    ensures
        utf16::decoded(
            utf16::until_zero(utf16::le_units(z_string(utf16::wide_text(s), true) + rest)),
        ) == s,
{
    utf16::law_wide_text_reads_back(s, rest);
}

/// The count before a wide text is that of its UTF-16 units.
pub proof fn law_wide_texts_are_counted_in_units(s: Seq<char>)
    ensures
        text_units(utf16::wide_text(s), true) == utf16::encoded(s).len(),
{
    utf16::lemma_wide_units(utf16::encoded(s), Seq::empty());
}

/// A client that reads a narrow string up to its zero gets back the bytes that were written,
/// whatever follows them; for all bytes that hold no zero.
pub proof fn law_narrow_string_reads_back(b: Seq<u8>, rest: Seq<u8>)
    requires
        !b.contains(0),
    ensures
        bytes_until_zero(z_string(b, false) + rest) == b,
{
    let s = z_string(b, false) + rest;
    let n = b.len() as int;
    assert forall|k: int| 0 <= k < n implies s[k] != 0 by {
        assert(b.contains(b[k]));
    }
    assert(s[n] == 0);
    lemma_bytes_until_zero(s, n);
    assert(s.take(n) =~= b);
}

/// A narrow reply of the older form holds, for each hit of its page, the machine's bytes of its
/// name and of its folder where the row of the hit says; for every reply that a 32-bit offset can
/// address.
pub proof fn law_narrow_reply_holds_local_bytes(
    all: Seq<IpcHitView>,
    local: Seq<HitBytesView>,
    r: QueryRequestView,
    k: int,
)
    requires
        !r.wide,
        !r.columns,
        local.len() == texts_wanted(all, r).len(),
        0 <= k < local.len(),
        reply_of(all, local, r).len() <= u32::MAX,
    ensures
        ({
            let b = reply_of(all, local, r);
            let name_at = bytes::u32_at(b, 28 + 12 * k + 4) as int;
            let parent_at = bytes::u32_at(b, 28 + 12 * k + 8) as int;
            let name = z_string(local[k].name, false);
            let parent = z_string(local[k].parent, false);
            &&& name_at + name.len() <= b.len()
            &&& b.subrange(name_at, name_at + name.len()) == name
            &&& parent_at + parent.len() <= b.len()
            &&& b.subrange(parent_at, parent_at + parent.len()) == parent
        }),
{
    law_list_offsets(all, requested_page(all, r), local, r.offset, false, k);
}

// ---- what a client reads ------------------------------------------------------------------

/// At `at` stands a counted wide string with this text: the number of its units, the units, and a
/// zero unit.
pub open spec fn wide_string_at(b: Seq<u8>, at: int, s: Seq<char>) -> bool {
    let n = bytes::u32_at(b, at) as int;
    &&& 0 <= at
    &&& at + 4 + 2 * n + 2 <= b.len()
    &&& utf16::decoded(utf16::le_units(b.subrange(at + 4, at + 4 + 2 * n))) == s
    &&& b[at + 4 + 2 * n] == 0
    &&& b[at + 4 + 2 * n + 1] == 0
}

/// At `at` stands a counted narrow string of these bytes, with a zero behind it.
pub open spec fn narrow_string_at(b: Seq<u8>, at: int, s: Seq<u8>) -> bool {
    &&& 0 <= at
    &&& at + 4 + s.len() + 1 <= b.len()
    &&& bytes::u32_at(b, at) == s.len()
    &&& b.subrange(at + 4, at + 4 + s.len()) == s
    &&& b[at + 4 + s.len() as int] == 0
}

/// At `at` stands this number in eight bytes, or in four.
pub open spec fn number_at(b: Seq<u8>, at: int, n: u64) -> bool {
    0 <= at && at + 8 <= b.len() && bytes::u64_at(b, at) == n
}

pub open spec fn short_number_at(b: Seq<u8>, at: int, n: u32) -> bool {
    0 <= at && at + 4 <= b.len() && bytes::u32_at(b, at) == n
}

/// `e` is the extension of the hit: a folder and a name without a dot have none, that of another
/// name stands behind its last dot.
pub open spec fn has_extension(h: IpcHitView, e: Seq<char>) -> bool {
    if h.is_dir || !h.name.contains('.') {
        e.len() == 0
    } else {
        &&& e.len() < h.name.len()
        &&& h.name[h.name.len() - e.len() - 1] == '.'
        &&& h.name.subrange(h.name.len() - e.len(), h.name.len() as int) == e
        &&& !e.contains('.')
    }
}

proof fn lemma_extension(h: IpcHitView)
    ensures
        has_extension(h, extension_of(h)),
{
    text::law_split_last(h.name, '.');
    text::law_last_piece(h.name, '.');
    if !h.is_dir && h.name.contains('.') {
        let a = text::before_last(h.name, '.')->0;
        let e = text::after_last(h.name, '.')->0;
        let s = a.push('.') + e;
        assert(s[a.len() as int] == '.');
        assert(s.subrange(s.len() - e.len(), s.len() as int) =~= e);
    }
}

proof fn lemma_one_bit(h: IpcHitView, b: HitBytesView, i: u32, n: int, wide: bool)
    requires
        i < 16,
        0 <= n <= 16,
    ensures
        columns(h, b, 1u32 << i, n, wide) == (if n > i {
            column(h, b, i as int, wide)
        } else {
            Seq::empty()
        }),
    decreases n,
{
    if n > 0 {
        lemma_one_bit(h, b, i, n - 1, wide);
        let j = (n - 1) as u32;
        assert(i < 16 && j < 16 ==> ((1u32 << i) & (1u32 << j) != 0 <==> i == j)) by (bit_vector);
        if n - 1 == i {
            assert(Seq::<u8>::empty() + column(h, b, n - 1, wide) =~= column(h, b, n - 1, wide));
        }
    }
}

/// The bytes of a column that stands at `at` are read there.
proof fn lemma_read_column(b: Seq<u8>, at: int, own: Seq<u8>)
    requires
        0 <= at,
        at + own.len() <= b.len(),
        b.subrange(at, at + own.len()) == own,
    ensures
        own.len() >= 4 ==> bytes::u32_at(b, at) == bytes::u32_at(own, 0),
        own.len() >= 8 ==> bytes::u64_at(b, at) == bytes::u64_at(own, 0),
        forall|i: int, j: int|
            0 <= i <= j <= own.len() ==> #[trigger] b.subrange(at + i, at + j) == own.subrange(i, j),
        forall|i: int| 0 <= i < own.len() ==> #[trigger] own[i] == b[at + i],
{
    assert forall|i: int, j: int| 0 <= i <= j <= own.len() implies #[trigger] b.subrange(
        at + i,
        at + j,
    ) == own.subrange(i, j) by {
        assert(b.subrange(at, at + own.len()).subrange(i, j) =~= b.subrange(at + i, at + j));
    }
    assert forall|i: int| 0 <= i < own.len() implies #[trigger] own[i] == b[at + i] by {
        assert(b.subrange(at, at + own.len())[i] == b[at + i]);
    }
    if own.len() >= 4 {
        assert(b.subrange(at + 0, at + 4) == own.subrange(0, 4));
    }
    if own.len() >= 8 {
        assert(b.subrange(at + 0, at + 8) == own.subrange(0, 8));
    }
    bytes::lemma_read_shifted(b, own, at, 0);
}

proof fn lemma_read_wide_column(b: Seq<u8>, at: int, s: Seq<char>)
    requires
        0 <= at,
        b.len() <= u32::MAX,
        ({
            let own = ipc_string(utf16::wide_text(s), true);
            at + own.len() <= b.len() && b.subrange(at, at + own.len()) == own
        }),
    ensures
        wide_string_at(b, at, s),
{
    let t = utf16::wide_text(s);
    let own = ipc_string(t, true);
    let n = text_units(t, true);
    law_wide_texts_are_counted_in_units(s);
    utf16::lemma_wide_units(utf16::encoded(s), Seq::empty());
    assert(t.len() == 2 * n);
    lemma_read_column(b, at, own);
    bytes::law_u32_round_trip(n as u32);
    assert(own.subrange(0, 4) =~= bytes::u32_bytes(n as u32).subrange(0, 4));
    bytes::lemma_read_shifted(own, bytes::u32_bytes(n as u32), 0, 0);
    assert(bytes::u32_at(b, at) == n);
    assert(b.subrange(at + 4, at + (4 + t.len())) == own.subrange(4, 4 + t.len() as int));
    assert(own.subrange(4, 4 + t.len() as int) =~= t);
    assert(own[4 + t.len() as int] == 0 && own[4 + t.len() as int + 1] == 0);
    let u = utf16::encoded(s);
    assert(t + Seq::<u8>::empty() =~= t);
    assert(utf16::le_units(t) =~= u) by {
        assert forall|i: int| 0 <= i < u.len() implies utf16::le_units(t)[i] == u[i] by {
            assert(bytes::u16_at(utf16::wide_bytes(u) + Seq::<u8>::empty(), 2 * i) == u[i]);
        }
    }
    utf16::law_utf16_round_trip(s);
}

proof fn lemma_read_narrow_column(b: Seq<u8>, at: int, s: Seq<u8>)
    requires
        0 <= at,
        b.len() <= u32::MAX,
        ({
            let own = ipc_string(s, false);
            at + own.len() <= b.len() && b.subrange(at, at + own.len()) == own
        }),
    ensures
        narrow_string_at(b, at, s),
{
    let own = ipc_string(s, false);
    let n = s.len();
    lemma_read_column(b, at, own);
    bytes::law_u32_round_trip(n as u32);
    assert(own.subrange(0, 4) =~= bytes::u32_bytes(n as u32).subrange(0, 4));
    bytes::lemma_read_shifted(own, bytes::u32_bytes(n as u32), 0, 0);
    assert(b.subrange(at + 4, at + (4 + n)) == own.subrange(4, 4 + n as int));
    assert(own.subrange(4, 4 + n as int) =~= s);
    assert(own[4 + n as int] == 0);
}

proof fn lemma_read_number_column(b: Seq<u8>, at: int, n: u64)
    requires
        0 <= at,
        at + 8 <= b.len(),
        b.subrange(at, at + 8) == bytes::u64_bytes(n),
    ensures
        number_at(b, at, n),
{
    bytes::law_u64_round_trip(n);
    lemma_read_column(b, at, bytes::u64_bytes(n));
}

proof fn lemma_read_short_column(b: Seq<u8>, at: int, n: u32)
    requires
        0 <= at,
        at + 4 <= b.len(),
        b.subrange(at, at + 4) == bytes::u32_bytes(n),
    ensures
        short_number_at(b, at, n),
{
    bytes::law_u32_round_trip(n);
    lemma_read_column(b, at, bytes::u32_bytes(n));
}

/// Where a client reads the columns of the hit in row `k` of a newer reply.
pub open spec fn columns_at(b: Seq<u8>, k: int) -> int {
    bytes::u32_at(b, 20 + 8 * k + 4) as int
}

/// The reply to a request for column `i` alone, at the row of hit `k`.
proof fn lemma_single_column(
    all: Seq<IpcHitView>,
    local: Seq<HitBytesView>,
    r: QueryRequestView,
    k: int,
    i: u32,
)
    requires
        r.columns,
        i < 16,
        r.request_flags == 1u32 << i,
        0 <= k < r.max,
        r.offset + k < all.len(),
        !r.wide ==> local.len() == texts_wanted(all, r).len(),
        reply_of(all, local, r).len() <= u32::MAX,
    ensures
        ({
            let b = reply_of(all, local, r);
            let h = all[r.offset + k];
            let at = columns_at(b, k);
            let texts = if r.wide {
                wide_texts(texts_of(h))
            } else {
                local[k]
            };
            let own = column(h, texts, i as int, r.wide);
            &&& bytes::u32_at(b, 20 + 8 * k) == folder_flag(h)
            &&& at + own.len() <= b.len()
            &&& b.subrange(at, at + own.len()) == own
        }),
{
    let page = requested_page(all, r);
    let coded = coded_page(page, local, r.wide);
    assert(page[k] == all[r.offset + k]);
    law_column_offsets(all, page, coded, r.offset, r.request_flags, r.wide, k);
    lemma_one_bit(page[k], coded[k], i, 16, r.wide);
}

proof fn lemma_single_bits()
    ensures
        1u32 << 0u32 == 0x1,
        1u32 << 1u32 == 0x2,
        1u32 << 2u32 == 0x4,
        1u32 << 3u32 == 0x8,
        1u32 << 4u32 == 0x10,
        1u32 << 5u32 == 0x20,
        1u32 << 6u32 == 0x40,
        1u32 << 7u32 == 0x80,
        1u32 << 8u32 == 0x100,
        1u32 << 9u32 == 0x200,
        1u32 << 10u32 == 0x400,
        1u32 << 11u32 == 0x800,
        1u32 << 12u32 == 0x1000,
        1u32 << 13u32 == 0x2000,
        1u32 << 14u32 == 0x4000,
        1u32 << 15u32 == 0x8000,
{
    assert(1u32 << 0u32 == 0x1 && 1u32 << 1u32 == 0x2 && 1u32 << 2u32 == 0x4 && 1u32 << 3u32 == 0x8
        && 1u32 << 4u32 == 0x10 && 1u32 << 5u32 == 0x20 && 1u32 << 6u32 == 0x40 && 1u32 << 7u32
        == 0x80 && 1u32 << 8u32 == 0x100 && 1u32 << 9u32 == 0x200 && 1u32 << 10u32 == 0x400 && 1u32
        << 11u32 == 0x800 && 1u32 << 12u32 == 0x1000 && 1u32 << 13u32 == 0x2000 && 1u32 << 14u32
        == 0x4000 && 1u32 << 15u32 == 0x8000) by (bit_vector);
}

/// A client that asks for one text alone, in the wide form, reads that text of each hit: its name,
/// folder, full path or extension, the list file, which is empty, or one of the highlighted texts.
pub proof fn law_asked_text_is_read(
    all: Seq<IpcHitView>,
    local: Seq<HitBytesView>,
    r: QueryRequestView,
    k: int,
)
    requires
        r.columns,
        r.wide,
        0 <= k < r.max,
        r.offset + k < all.len(),
        reply_of(all, local, r).len() <= u32::MAX,
    ensures
        ({
            let b = reply_of(all, local, r);
            let h = all[r.offset + k];
            let at = columns_at(b, k);
            &&& r.request_flags == 0x1 ==> wide_string_at(b, at, h.name)
            &&& r.request_flags == 0x2 ==> wide_string_at(b, at, h.parent)
            &&& r.request_flags == 0x4 ==> wide_string_at(b, at, h.full_path)
            &&& r.request_flags == 0x8 ==> exists|e: Seq<char>|
                has_extension(h, e) && #[trigger] wide_string_at(b, at, e)
            &&& r.request_flags == 0x200 ==> wide_string_at(b, at, Seq::empty())
            &&& r.request_flags == 0x2000 ==> wide_string_at(b, at, h.name)
            &&& r.request_flags == 0x4000 ==> wide_string_at(b, at, h.parent)
            &&& r.request_flags == 0x8000 ==> wide_string_at(b, at, h.full_path)
        }),
{
    lemma_single_bits();
    let b = reply_of(all, local, r);
    let h = all[r.offset + k];
    let at = columns_at(b, k);
    if r.request_flags == 0x1 {
        lemma_single_column(all, local, r, k, 0);
        lemma_read_wide_column(b, at, h.name);
    } else if r.request_flags == 0x2 {
        lemma_single_column(all, local, r, k, 1);
        lemma_read_wide_column(b, at, h.parent);
    } else if r.request_flags == 0x4 {
        lemma_single_column(all, local, r, k, 2);
        lemma_read_wide_column(b, at, h.full_path);
    } else if r.request_flags == 0x8 {
        lemma_single_column(all, local, r, k, 3);
        lemma_extension(h);
        lemma_read_wide_column(b, at, extension_of(h));
    } else if r.request_flags == 0x200 {
        lemma_single_column(all, local, r, k, 9);
        assert(utf16::wide_text(Seq::empty()) =~= Seq::empty());
        lemma_read_wide_column(b, at, Seq::empty());
    } else if r.request_flags == 0x2000 {
        lemma_single_column(all, local, r, k, 13);
        lemma_read_wide_column(b, at, h.name);
    } else if r.request_flags == 0x4000 {
        lemma_single_column(all, local, r, k, 14);
        lemma_read_wide_column(b, at, h.parent);
    } else if r.request_flags == 0x8000 {
        lemma_single_column(all, local, r, k, 15);
        lemma_read_wide_column(b, at, h.full_path);
    }
}

/// A client that asks for one text alone, in the narrow form, reads the machine's bytes of it.
pub proof fn law_asked_narrow_text_is_read(
    all: Seq<IpcHitView>,
    local: Seq<HitBytesView>,
    r: QueryRequestView,
    k: int,
)
    requires
        r.columns,
        !r.wide,
        0 <= k < r.max,
        r.offset + k < all.len(),
        local.len() == texts_wanted(all, r).len(),
        reply_of(all, local, r).len() <= u32::MAX,
    ensures
        ({
            let b = reply_of(all, local, r);
            let at = columns_at(b, k);
            &&& r.request_flags == 0x1 ==> narrow_string_at(b, at, local[k].name)
            &&& r.request_flags == 0x2 ==> narrow_string_at(b, at, local[k].parent)
            &&& r.request_flags == 0x4 ==> narrow_string_at(b, at, local[k].full_path)
            &&& r.request_flags == 0x8 ==> narrow_string_at(b, at, local[k].extension)
            &&& r.request_flags == 0x200 ==> narrow_string_at(b, at, Seq::empty())
            &&& r.request_flags == 0x2000 ==> narrow_string_at(b, at, local[k].name)
            &&& r.request_flags == 0x4000 ==> narrow_string_at(b, at, local[k].parent)
            &&& r.request_flags == 0x8000 ==> narrow_string_at(b, at, local[k].full_path)
        }),
{
    lemma_single_bits();
    let b = reply_of(all, local, r);
    let at = columns_at(b, k);
    if r.request_flags == 0x1 {
        lemma_single_column(all, local, r, k, 0);
        lemma_read_narrow_column(b, at, local[k].name);
    } else if r.request_flags == 0x2 {
        lemma_single_column(all, local, r, k, 1);
        lemma_read_narrow_column(b, at, local[k].parent);
    } else if r.request_flags == 0x4 {
        lemma_single_column(all, local, r, k, 2);
        lemma_read_narrow_column(b, at, local[k].full_path);
    } else if r.request_flags == 0x8 {
        lemma_single_column(all, local, r, k, 3);
        lemma_read_narrow_column(b, at, local[k].extension);
    } else if r.request_flags == 0x200 {
        lemma_single_column(all, local, r, k, 9);
        lemma_read_narrow_column(b, at, Seq::empty());
    } else if r.request_flags == 0x2000 {
        lemma_single_column(all, local, r, k, 13);
        lemma_read_narrow_column(b, at, local[k].name);
    } else if r.request_flags == 0x4000 {
        lemma_single_column(all, local, r, k, 14);
        lemma_read_narrow_column(b, at, local[k].parent);
    } else if r.request_flags == 0x8000 {
        lemma_single_column(all, local, r, k, 15);
        lemma_read_narrow_column(b, at, local[k].full_path);
    }
}

/// A client that asks for one number alone reads that number of each hit: its size, the times of
/// its creation and of its last change, or its attributes; the access, run and change times and
/// the run count, which the index does not keep, are zero. The row says whether it is a folder.
pub proof fn law_asked_number_is_read(
    all: Seq<IpcHitView>,
    local: Seq<HitBytesView>,
    r: QueryRequestView,
    k: int,
)
    requires
        r.columns,
        0 <= k < r.max,
        r.offset + k < all.len(),
        !r.wide ==> local.len() == texts_wanted(all, r).len(),
        reply_of(all, local, r).len() <= u32::MAX,
    ensures
        ({
            let b = reply_of(all, local, r);
            let h = all[r.offset + k];
            let at = columns_at(b, k);
            &&& bytes::u32_at(b, 20 + 8 * k) == (if h.is_dir {
                1u32
            } else {
                0
            })
            &&& r.request_flags == 0x10 ==> number_at(b, at, h.size)
            &&& r.request_flags == 0x20 ==> number_at(b, at, h.ctime)
            &&& r.request_flags == 0x40 ==> number_at(b, at, h.mtime)
            &&& r.request_flags == 0x80 ==> number_at(b, at, 0)
            &&& r.request_flags == 0x100 ==> short_number_at(b, at, h.attrs)
            &&& r.request_flags == 0x400 ==> short_number_at(b, at, 0)
            &&& r.request_flags == 0x800 ==> number_at(b, at, 0)
            &&& r.request_flags == 0x1000 ==> number_at(b, at, 0)
        }),
{
    lemma_single_bits();
    let b = reply_of(all, local, r);
    let h = all[r.offset + k];
    let at = columns_at(b, k);
    let page = requested_page(all, r);
    assert(page[k] == h);
    law_column_offsets(
        all,
        page,
        coded_page(page, local, r.wide),
        r.offset,
        r.request_flags,
        r.wide,
        k,
    );
    if r.request_flags == 0x10 {
        lemma_single_column(all, local, r, k, 4);
        bytes::law_u64_round_trip(h.size);
        lemma_read_number_column(b, at, h.size);
    } else if r.request_flags == 0x20 {
        lemma_single_column(all, local, r, k, 5);
        bytes::law_u64_round_trip(h.ctime);
        lemma_read_number_column(b, at, h.ctime);
    } else if r.request_flags == 0x40 {
        lemma_single_column(all, local, r, k, 6);
        bytes::law_u64_round_trip(h.mtime);
        lemma_read_number_column(b, at, h.mtime);
    } else if r.request_flags == 0x80 {
        lemma_single_column(all, local, r, k, 7);
        bytes::law_u64_round_trip(0);
        lemma_read_number_column(b, at, 0);
    } else if r.request_flags == 0x100 {
        lemma_single_column(all, local, r, k, 8);
        bytes::law_u32_round_trip(h.attrs);
        lemma_read_short_column(b, at, h.attrs);
    } else if r.request_flags == 0x400 {
        lemma_single_column(all, local, r, k, 10);
        bytes::law_u32_round_trip(0);
        lemma_read_short_column(b, at, 0);
    } else if r.request_flags == 0x800 {
        lemma_single_column(all, local, r, k, 11);
        bytes::law_u64_round_trip(0);
        lemma_read_number_column(b, at, 0);
    } else if r.request_flags == 0x1000 {
        lemma_single_column(all, local, r, k, 12);
        bytes::law_u64_round_trip(0);
        lemma_read_number_column(b, at, 0);
    }
}

proof fn lemma_flags_apart(rest: u32, n: u32, j: u32)
    requires
        n < 16,
        j < 16,
        rest < (1u32 << n),
    ensures
        j < n ==> ((rest | (1u32 << n)) & (1u32 << j) != 0 <==> rest & (1u32 << j) != 0),
        j == n ==> (rest | (1u32 << n)) & (1u32 << j) != 0,
        j > n ==> (rest | (1u32 << n)) & (1u32 << j) == 0,
        j >= n ==> rest & (1u32 << j) == 0,
{
    assert(n < 16 && j < 16 && rest < (1u32 << n) ==> (j < n ==> ((rest | (1u32 << n)) & (1u32 << j)
        != 0 <==> rest & (1u32 << j) != 0)) && (j == n ==> (rest | (1u32 << n)) & (1u32 << j) != 0)
        && (j > n ==> (rest | (1u32 << n)) & (1u32 << j) == 0) && (j >= n ==> rest & (1u32 << j)
        == 0)) by (bit_vector);
}

proof fn lemma_columns_grow(
    h: IpcHitView,
    b: HitBytesView,
    rest: u32,
    n: u32,
    m: int,
    wide: bool,
)
    requires
        n < 16,
        rest < (1u32 << n),
        0 <= m <= 16,
    ensures
        columns(h, b, rest | (1u32 << n), m, wide) == columns(h, b, rest, m, wide) + columns(
            h,
            b,
            1u32 << n,
            m,
            wide,
        ),
    decreases m,
{
    if m > 0 {
        lemma_columns_grow(h, b, rest, n, m - 1, wide);
        lemma_flags_apart(rest, n, (m - 1) as u32);
        lemma_one_bit(h, b, n, m, wide);
        lemma_one_bit(h, b, n, m - 1, wide);
    }
    assert(columns(h, b, rest | (1u32 << n), m, wide) =~= columns(h, b, rest, m, wide) + columns(
        h,
        b,
        1u32 << n,
        m,
        wide,
    ));
}

/// Where several columns are asked for they stand in the order of their flags: the column of the
/// highest flag stands behind those of the others, as it would stand alone.
pub proof fn law_columns_stand_in_order(
    h: IpcHitView,
    b: HitBytesView,
    rest: u32,
    n: u32,
    wide: bool,
)
    requires
        n < 16,
        rest < (1u32 << n),
    ensures
        columns(h, b, rest | (1u32 << n), 16, wide) == columns(h, b, rest, 16, wide) + columns(
            h,
            b,
            1u32 << n,
            16,
            wide,
        ),
{
    lemma_columns_grow(h, b, rest, n, 16, wide);
}

proof fn lemma_head_numbers(a: Seq<u8>, rest: Seq<u8>, at: int, n: u32)
    requires
        0 <= at,
        at + 4 <= a.len(),
        a.subrange(at, at + 4) == bytes::u32_bytes(n),
    ensures
        bytes::u32_at(a + rest, at) == n,
{
    bytes::law_u32_round_trip(n);
    assert((a + rest).subrange(at, at + 4) =~= a.subrange(at, at + 4));
    assert(bytes::u32_bytes(n).subrange(0, 4) =~= bytes::u32_bytes(n));
    bytes::lemma_read_shifted(a + rest, bytes::u32_bytes(n), at, 0);
}

/// How many hits a reply holds: as many as were asked for, as far as there are any behind the
/// offset.
pub open spec fn hits_shown(len: int, offset: u32, max: u32) -> int {
    if offset >= len {
        0
    } else if len - offset < max {
        len - offset
    } else {
        max as int
    }
}

/// The head of a newer reply says how many hits there are, how many it holds, from which one on
/// and which columns of them.
pub proof fn law_newer_head(
    all: Seq<IpcHitView>,
    local: Seq<HitBytesView>,
    r: QueryRequestView,
)
    requires
        r.columns,
        all.len() <= u32::MAX,
    ensures
        ({
            let b = reply_of(all, local, r);
            &&& bytes::u32_at(b, 0) == all.len()
            &&& bytes::u32_at(b, 4) == hits_shown(all.len() as int, r.offset, r.max)
            &&& bytes::u32_at(b, 8) == r.offset
            &&& bytes::u32_at(b, 12) == r.request_flags
            &&& bytes::u32_at(b, 16) == 1
        }),
{
    let page = requested_page(all, r);
    let coded = coded_page(page, local, r.wide);
    let head = columns_head(all, page, r.offset, r.request_flags);
    let n = page.len() as int;
    let rest = column_rows(page, coded, n, 20 + 8 * n, r.request_flags, r.wide) + page_columns(
        page,
        coded,
        n,
        r.request_flags,
        r.wide,
    );
    assert(reply_of(all, local, r) =~= head + rest);
    assert(head.subrange(0, 4) =~= bytes::u32_bytes(all.len() as u32));
    assert(head.subrange(4, 8) =~= bytes::u32_bytes(page.len() as u32));
    assert(head.subrange(8, 12) =~= bytes::u32_bytes(r.offset));
    assert(head.subrange(12, 16) =~= bytes::u32_bytes(r.request_flags));
    assert(head.subrange(16, 20) =~= bytes::u32_bytes(1));
    lemma_head_numbers(head, rest, 0, all.len() as u32);
    lemma_head_numbers(head, rest, 4, page.len() as u32);
    lemma_head_numbers(head, rest, 8, r.offset);
    lemma_head_numbers(head, rest, 12, r.request_flags);
    lemma_head_numbers(head, rest, 16, 1);
}

/// The folders among hits, or the files.
pub open spec fn kind_is(dir: bool) -> spec_fn(IpcHitView) -> bool {
    |h: IpcHitView| h.is_dir == dir
}

proof fn lemma_count_is_filter(s: Seq<IpcHitView>, dirs: bool)
    ensures
        count_kind(s, dirs) == s.filter(kind_is(dirs)).len(),
    decreases s.len(),
{
    reveal(Seq::filter);
    if s.len() > 0 {
        lemma_count_is_filter(s.drop_last(), dirs);
    }
}

/// The head of an older reply counts folders, files and both together, first of all hits and then
/// of those that it holds, and says from which one on.
pub proof fn law_older_head(
    all: Seq<IpcHitView>,
    local: Seq<HitBytesView>,
    r: QueryRequestView,
)
    requires
        !r.columns,
        all.len() <= u32::MAX,
    ensures
        ({
            let b = reply_of(all, local, r);
            let n = hits_shown(all.len() as int, r.offset, r.max);
            let first = if r.offset < all.len() {
                r.offset as int
            } else {
                all.len() as int
            };
            let shown = all.subrange(first, first + n);
            &&& bytes::u32_at(b, 0) == all.filter(kind_is(true)).len()
            &&& bytes::u32_at(b, 4) == all.filter(kind_is(false)).len()
            &&& bytes::u32_at(b, 8) == all.len()
            &&& bytes::u32_at(b, 12) == shown.filter(kind_is(true)).len()
            &&& bytes::u32_at(b, 16) == shown.filter(kind_is(false)).len()
            &&& bytes::u32_at(b, 20) == n
            &&& bytes::u32_at(b, 24) == r.offset
        }),
{
    let page = requested_page(all, r);
    let coded = coded_page(page, local, r.wide);
    let head = list_head(all, page, r.offset);
    let n = page.len() as int;
    let rest = page_rows(page, coded, n, 28 + 12 * n, r.wide) + page_strings(coded, n, r.wide);
    assert(reply_of(all, local, r) =~= head + rest);
    lemma_count_bound(all, true);
    lemma_count_bound(page, true);
    lemma_count_is_filter(all, true);
    lemma_count_is_filter(all, false);
    lemma_count_is_filter(page, true);
    lemma_count_is_filter(page, false);
    assert(head.subrange(0, 4) =~= bytes::u32_bytes(count_kind(all, true) as u32));
    assert(head.subrange(4, 8) =~= bytes::u32_bytes(count_kind(all, false) as u32));
    assert(head.subrange(8, 12) =~= bytes::u32_bytes(all.len() as u32));
    assert(head.subrange(12, 16) =~= bytes::u32_bytes(count_kind(page, true) as u32));
    assert(head.subrange(16, 20) =~= bytes::u32_bytes(count_kind(page, false) as u32));
    assert(head.subrange(20, 24) =~= bytes::u32_bytes(page.len() as u32));
    assert(head.subrange(24, 28) =~= bytes::u32_bytes(r.offset));
    lemma_head_numbers(head, rest, 0, count_kind(all, true) as u32);
    lemma_head_numbers(head, rest, 4, count_kind(all, false) as u32);
    lemma_head_numbers(head, rest, 8, all.len() as u32);
    lemma_head_numbers(head, rest, 12, count_kind(page, true) as u32);
    lemma_head_numbers(head, rest, 16, count_kind(page, false) as u32);
    lemma_head_numbers(head, rest, 20, page.len() as u32);
    lemma_head_numbers(head, rest, 24, r.offset);
}

/// A client of an older reply, wide, reads the name and the folder of each hit up to their zeros,
/// where the row of the hit says; for names without a zero character.
pub proof fn law_older_texts_are_read(
    all: Seq<IpcHitView>,
    local: Seq<HitBytesView>,
    r: QueryRequestView,
    k: int,
)
    requires
        !r.columns,
        r.wide,
        0 <= k < r.max,
        r.offset + k < all.len(),
        !all[r.offset + k].name.contains('\0'),
        !all[r.offset + k].parent.contains('\0'),
        reply_of(all, local, r).len() <= u32::MAX,
    ensures
        ({
            let b = reply_of(all, local, r);
            let h = all[r.offset + k];
            let name_at = bytes::u32_at(b, 28 + 12 * k + 4) as int;
            let parent_at = bytes::u32_at(b, 28 + 12 * k + 8) as int;
            &&& bytes::u32_at(b, 28 + 12 * k) == (if h.is_dir {
                1u32
            } else {
                0
            })
            &&& name_at <= b.len() && parent_at <= b.len()
            &&& utf16::decoded(utf16::until_zero(utf16::le_units(b.skip(name_at)))) == h.name
            &&& utf16::decoded(utf16::until_zero(utf16::le_units(b.skip(parent_at)))) == h.parent
        }),
{
    let b = reply_of(all, local, r);
    let h = all[r.offset + k];
    let page = requested_page(all, r);
    let coded = coded_page(page, local, true);
    assert(page[k] == h);
    law_list_offsets(all, page, coded, r.offset, true, k);
    let name_at = bytes::u32_at(b, 28 + 12 * k + 4) as int;
    let parent_at = bytes::u32_at(b, 28 + 12 * k + 8) as int;
    let name = z_string(utf16::wide_text(h.name), true);
    let parent = z_string(utf16::wide_text(h.parent), true);
    assert(coded[k] == wide_texts(texts_of(h)));
    let after_name = b.skip(name_at + name.len());
    let after_parent = b.skip(parent_at + parent.len());
    assert(b.skip(name_at) =~= name + after_name) by {
        assert(b.skip(name_at) =~= b.subrange(name_at, name_at + name.len()) + after_name);
    }
    assert(b.skip(parent_at) =~= parent + after_parent) by {
        assert(b.skip(parent_at) =~= b.subrange(parent_at, parent_at + parent.len())
            + after_parent);
    }
    law_wide_string_reads_back(h.name, after_name);
    law_wide_string_reads_back(h.parent, after_parent);
}

// ---- what the service reads ---------------------------------------------------------------

/// A request of the older form as a client writes it: the most hits, the first hit, the number for
/// the reply, the search flags, the window, and the text.
pub open spec fn older_request(
    max: u32,
    offset: u32,
    reply: u32,
    flags: u32,
    window: u32,
    text: Seq<u8>,
) -> Seq<u8> {
    bytes::u32_bytes(max) + bytes::u32_bytes(offset) + bytes::u32_bytes(reply) + bytes::u32_bytes(
        flags,
    ) + bytes::u32_bytes(window) + text
}

/// A request of the newer form as a client writes it: the window, the number for the reply, the
/// search flags, the first hit, the most hits, the columns, the sort order, and the text.
pub open spec fn newer_request(
    window: u32,
    reply: u32,
    flags: u32,
    offset: u32,
    max: u32,
    columns: u32,
    sort: u32,
    text: Seq<u8>,
) -> Seq<u8> {
    bytes::u32_bytes(window) + bytes::u32_bytes(reply) + bytes::u32_bytes(flags) + bytes::u32_bytes(
        offset,
    ) + bytes::u32_bytes(max) + bytes::u32_bytes(columns) + bytes::u32_bytes(sort) + text
}

proof fn lemma_number_in(s: Seq<u8>, at: int, n: u32)
    requires
        0 <= at,
        at + 4 <= s.len(),
        s.subrange(at, at + 4) == bytes::u32_bytes(n),
    ensures
        bytes::u32_at(s, at) == n,
{
    lemma_head_numbers(s, Seq::empty(), at, n);
    assert(s + Seq::<u8>::empty() =~= s);
}

proof fn lemma_wide_request_text(data: Seq<u8>, off: int, text: Seq<char>)
    requires
        0 <= off <= data.len(),
        data.subrange(off, data.len() as int) == utf16::wide_text(text) + seq![0u8, 0u8],
        !text.contains('\0'),
    ensures
        search_text(data, off, true) == text,
{
    let b = utf16::wide_text(text) + seq![0u8, 0u8];
    utf16::law_wide_text_reads_back(text, Seq::empty());
    assert(b + Seq::<u8>::empty() =~= b);
}

/// A query of the older form is understood as the client wrote it: every field is read from its own
/// place, no limit means a hundred hits, and hits are sorted by name. One without a number for the
/// reply is refused.
pub proof fn law_older_request_is_understood(
    max: u32,
    offset: u32,
    reply: u32,
    flags: u32,
    window: u32,
    text: Seq<char>,
)
    requires
        !text.contains('\0'),
    ensures
        ({
            let data = older_request(
                max,
                offset,
                reply,
                flags,
                window,
                utf16::wide_text(text) + seq![0u8, 0u8],
            );
            if reply == 0 {
                copydata(2, data) == CopyDataView::Answer(0)
            } else {
                copydata(2, data) matches CopyDataView::Query(q) && !q.columns && q.wide
                    && q.reply_msg == reply && q.search_flags == flags && q.offset == offset && (max
                    > 0 ==> q.max == max) && (max == 0 ==> q.max == 100) && q.sort_by
                    == SortField::Name && !q.sort_desc && q.text == text
            }
        }),
{
    let t = utf16::wide_text(text) + seq![0u8, 0u8];
    let data = older_request(max, offset, reply, flags, window, t);
    assert(data.subrange(0, 4) =~= bytes::u32_bytes(max));
    assert(data.subrange(4, 8) =~= bytes::u32_bytes(offset));
    assert(data.subrange(8, 12) =~= bytes::u32_bytes(reply));
    assert(data.subrange(12, 16) =~= bytes::u32_bytes(flags));
    assert(data.subrange(20, data.len() as int) =~= t);
    lemma_number_in(data, 0, max);
    lemma_number_in(data, 4, offset);
    lemma_number_in(data, 8, reply);
    lemma_number_in(data, 12, flags);
    lemma_wide_request_text(data, 20, text);
}

/// A query of the newer form is understood as the client wrote it: every field is read from its own
/// place, and no limit means a hundred hits.
pub proof fn law_newer_request_is_understood(
    window: u32,
    reply: u32,
    flags: u32,
    offset: u32,
    max: u32,
    columns: u32,
    sort: u32,
    text: Seq<char>,
)
    requires
        !text.contains('\0'),
    ensures
        ({
            let data = newer_request(
                window,
                reply,
                flags,
                offset,
                max,
                columns,
                sort,
                utf16::wide_text(text) + seq![0u8, 0u8],
            );
            copydata(18, data) matches CopyDataView::Query(q) && q.columns && q.wide && q.reply_msg
                == reply && q.search_flags == flags && q.offset == offset && (max > 0 ==> q.max
                == max) && (max == 0 ==> q.max == 100) && q.request_flags == columns && (q.sort_by,
                q.sort_desc) == sort_of(sort) && q.text == text
        }),
{
    let t = utf16::wide_text(text) + seq![0u8, 0u8];
    let data = newer_request(window, reply, flags, offset, max, columns, sort, t);
    assert(data.subrange(4, 8) =~= bytes::u32_bytes(reply));
    assert(data.subrange(8, 12) =~= bytes::u32_bytes(flags));
    assert(data.subrange(12, 16) =~= bytes::u32_bytes(offset));
    assert(data.subrange(16, 20) =~= bytes::u32_bytes(max));
    assert(data.subrange(20, 24) =~= bytes::u32_bytes(columns));
    assert(data.subrange(24, 28) =~= bytes::u32_bytes(sort));
    assert(data.subrange(28, data.len() as int) =~= t);
    lemma_number_in(data, 4, reply);
    lemma_number_in(data, 8, flags);
    lemma_number_in(data, 12, offset);
    lemma_number_in(data, 16, max);
    lemma_number_in(data, 20, columns);
    lemma_number_in(data, 24, sort);
    lemma_wide_request_text(data, 28, text);
}

/// The narrow forms of both queries are read as the wide ones are, but for the text.
pub proof fn law_narrow_requests_differ_in_the_text(data: Seq<u8>)
    requires
        data.len() >= 28,
    ensures
        match (copydata(1, data), copydata(2, data)) {
            (CopyDataView::Query(a), CopyDataView::Query(b)) => a == (QueryRequestView {
                wide: false,
                text: lossy_text(bytes_until_zero(data.skip(20))),
                ..b
            }),
            (CopyDataView::Answer(a), CopyDataView::Answer(b)) => a == 0 && b == 0,
            _ => false,
        },
        match (copydata(17, data), copydata(18, data)) {
            (CopyDataView::Query(a), CopyDataView::Query(b)) => a == (QueryRequestView {
                wide: false,
                text: lossy_text(bytes_until_zero(data.skip(28))),
                ..b
            }),
            _ => false,
        },
{
    assert(data.skip(20) =~= data.subrange(20, data.len() as int));
    assert(data.skip(28) =~= data.subrange(28, data.len() as int));
}

/// The sort numbers of the protocol come in pairs, the odd one up and the even one down: 3 is the
/// path, 5 the size, 11 the creation, 13 and 21 the last change, any other the name.
pub proof fn law_sort_numbers(t: u32)
    ensures
        1 <= t <= 26 ==> (sort_of(t).1 <==> t % 2 == 0),
        t == 0 || t > 26 ==> sort_of(t) == (SortField::Name, false),
        sort_of(t).0 == SortField::Path <==> t == 3 || t == 4,
        sort_of(t).0 == SortField::Size <==> t == 5 || t == 6,
        sort_of(t).0 == SortField::Created <==> t == 11 || t == 12,
        sort_of(t).0 == SortField::Modified <==> t == 13 || t == 14 || t == 21 || t == 22,
{
}

/// The questions of the protocol: version 1.4.1.1026, the architecture, whether the index is loaded
/// and whether it is busy; drives, fast sorting and file data are always indexed.
pub proof fn law_questions(cmd: u64, f: ServiceFacts)
    ensures
        cmd == 0 || cmd == 2 || cmd == 400 || cmd == 410 || cmd == 411 ==> wm_user_answer(cmd, f)
            == 1,
        cmd == 1 ==> wm_user_answer(cmd, f) == 4,
        cmd == 3 ==> wm_user_answer(cmd, f) == 1026,
        cmd == 5 ==> wm_user_answer(cmd, f) == f.target_machine,
        cmd == 401 ==> (wm_user_answer(cmd, f) == 1 <==> f.loaded),
        cmd == 402 ==> (wm_user_answer(cmd, f) == 1 <==> f.busy),
        cmd == 401 || cmd == 402 ==> wm_user_answer(cmd, f) == 0 || wm_user_answer(cmd, f) == 1,
        cmd == 4 || 5 < cmd < 400 || 402 < cmd < 410 || cmd > 411 ==> wm_user_answer(cmd, f) == 0,
{
}

/// The flags of a request: 2 minds case, 4 takes whole words, 8 searches whole paths, 1 takes the
/// terms as a regular expression; nothing else changes, and no flag is undone.
pub proof fn law_search_flags(q: ParsedQueryView, flags: u32)
    ensures
        ({
            let w = with_flags(q, flags);
            &&& w.case_sensitive <==> q.case_sensitive || flags & 2 != 0
            &&& w.whole_word <==> q.whole_word || flags & 4 != 0
            &&& w.nowfn <==> q.nowfn && flags & 8 == 0
            &&& (w.limit, w.sort_by, w.sort_desc) == (q.limit, q.sort_by, q.sort_desc)
            &&& flags & 1 == 0 || q.regex_pattern is Some ==> (
            w.regex_pattern,
            w.name_terms,
            w.substring,
            ) == (q.regex_pattern, q.name_terms, q.substring)
            &&& flags & 1 != 0 && q.regex_pattern is None && q.name_terms.len() > 0
                ==> w.regex_pattern == Some(text::joined(q.name_terms, " "@)) && w.name_terms.len()
                == 0 && w.substring is None
            &&& flags & 1 != 0 && q.regex_pattern is None && q.name_terms.len() == 0 && (
            q.substring matches Some(s) && s.len() > 0) ==> w.regex_pattern == q.substring
                && w.substring is None
        }),
{
}

/// The search is asked for all hits up to the end of the page, but never for more than 8192.
pub proof fn law_hits_asked_for(q: ParsedQueryView, r: QueryRequestView)
    ensures
        search_for(q, r).limit <= 8192,
        r.offset + r.max <= 8192 ==> search_for(q, r).limit == r.offset + r.max,
        r.offset + r.max > 8192 ==> search_for(q, r).limit == 8192,
        search_for(q, r).sort_by == r.sort_by,
        search_for(q, r).sort_desc == r.sort_desc,
{
}

/// A page is a stretch of all the hits: it begins at the offset, or at the end where that lies beyond
/// it, and holds as many as were asked for, or as there are left.
pub proof fn law_page_of_hits(all: Seq<IpcHitView>, offset: u32, max: u32, i: int)
    ensures
        ({
            let n = all.len() as int;
            let start = page_start(n, offset);
            let count = page_count(n, offset, max);
            let page = page_of(all, start, count);
            &&& page.len() == count
            &&& offset >= n ==> start == n && count == 0
            &&& offset < n ==> start == offset
            &&& offset + max <= n ==> count == max
            &&& offset < n < offset + max ==> count == n - offset
            &&& 0 <= i < count ==> page[i] == all[offset + i]
        }),
{
}

/// A search by pattern takes the words, with a blank between any two, or else the one text, as its
/// pattern, and looks for nothing else by name. One that has a pattern already stays as it is.
pub proof fn law_words_become_a_pattern(q: ParsedQueryView)
    ensures
        q.regex_pattern is Some ==> as_regex(q) == q,
        q.regex_pattern is None && q.name_terms.len() > 0 ==> {
            let r = as_regex(q);
            &&& r.regex_pattern == Some(text::joined(q.name_terms, " "@))
            &&& r.name_terms.len() == 0 && r.substring is None
        },
        q.regex_pattern is None && q.name_terms.len() == 0 ==> match q.substring {
            Some(s) => if s.len() > 0 {
                as_regex(q).regex_pattern == Some(s) && as_regex(q).substring is None
            } else {
                as_regex(q) == q
            },
            None => as_regex(q) == q,
        },
{
}

} // verus!
