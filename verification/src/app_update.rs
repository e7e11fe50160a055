//! Updates of the program: which release is newer, what a check reports, and when a download or
//! an installer is refused.
use vstd::prelude::*;
use crate::text;

verus! {

// ---- versions -----------------------------------------------------------------------------

/// What `semver::Version::parse` objects to in a text; nothing where the text is a version.
pub uninterp spec fn version_problem(s: Seq<char>) -> Option<Seq<char>>;

/// Whether the version `a` is at least the version `b` in the order of `semver::Version`.
pub uninterp spec fn version_at_least(a: Seq<char>, b: Seq<char>) -> bool;

/// The text of a version that is three numbers and no more.
pub open spec fn dotted(major: u64, minor: u64, patch: u64) -> Seq<char> {
    text::decimal(major as nat) + "."@ + text::decimal(minor as nat) + "."@ + text::decimal(
        patch as nat,
    )
}

/// The three numbers `a` are at least the three numbers `b`, the first difference deciding.
pub open spec fn numbers_at_least(a: (u64, u64, u64), b: (u64, u64, u64)) -> bool {
    a.0 > b.0 || (a.0 == b.0 && (a.1 > b.1 || (a.1 == b.1 && a.2 >= b.2)))
}

/// `semver::Version::parse`: what is wrong with a text as a version is a function of the text
/// alone, and nothing is wrong with three numbers between dots. Which other texts are versions,
/// and the words of the errors, are not spelled out here.
#[verifier::external_body]
fn parse_problem(s: &str) -> (r: Option<String>)
    ensures
        text::opt_view(r) == version_problem(s@),
        forall|a: u64, b: u64, c: u64| s@ == #[trigger] dotted(a, b, c) ==> r is None,
{
    match semver::Version::parse(s) {
        Ok(_) => None,
        Err(e) => Some(e.to_string()),
    }
}

/// The order of `semver::Version` on two texts that are versions: a function of the texts; the
/// numbers decide where there is nothing else. How pre-releases and build metadata are ordered is
/// not spelled out here.
#[verifier::external_body]
fn at_least(a: &str, b: &str) -> (r: bool)
    requires
        version_problem(a@) is None,
        version_problem(b@) is None,
    ensures
        r == version_at_least(a@, b@),
        forall|x: u64, y: u64, z: u64, u: u64, v: u64, w: u64|
            a@ == #[trigger] dotted(x, y, z) && b@ == #[trigger] dotted(u, v, w) ==> r
                == numbers_at_least((x, y, z), (u, v, w)),
{
    match (semver::Version::parse(a), semver::Version::parse(b)) {
        (Ok(x), Ok(y)) => x >= y,
        _ => false,
    }
}

pub open spec fn ascii_digit(c: char) -> bool {
    '0' as u32 <= c as u32 && c as u32 <= '9' as u32
}

/// The end of the run of digits and dots that begins at `i`.
pub open spec fn run_end(s: Seq<char>, i: int) -> int
    decreases s.len() - i,
{
    if 0 <= i < s.len() && (ascii_digit(s[i]) || s[i] == '.') {
        run_end(s, i + 1)
    } else {
        i
    }
}

proof fn lemma_run_end(s: Seq<char>, i: int)
    requires
        0 <= i <= s.len(),
    ensures
        i <= run_end(s, i) <= s.len(),
        i < s.len() && ascii_digit(s[i]) ==> i < run_end(s, i),
    decreases s.len() - i,
{
    if i < s.len() && (ascii_digit(s[i]) || s[i] == '.') {
        lemma_run_end(s, i + 1);
    }
}

/// The runs of digits and dots in `s` from `i` on; a run begins with a digit.
pub open spec fn number_runs(s: Seq<char>, i: int) -> Seq<Seq<char>>
    decreases s.len() - i,
{
    if i < 0 || i >= s.len() {
        Seq::empty()
    } else if ascii_digit(s[i]) && i < run_end(s, i) <= s.len() {
        seq![s.subrange(i, run_end(s, i))] + number_runs(s, run_end(s, i))
    } else {
        number_runs(s, i + 1)
    }
}

pub open spec fn dots(s: Seq<char>) -> nat
    decreases s.len(),
{
    if s.len() == 0 {
        0
    } else {
        dots(s.drop_last()) + (if s.last() == '.' {
            1nat
        } else {
            0nat
        })
    }
}

/// The greater of what was found so far and the run `x`, which counts where it is a version.
pub open spec fn better(best: Option<Seq<char>>, x: Seq<char>) -> Option<Seq<char>> {
    if dots(x) >= 2 && version_problem(x) is None {
        match best {
            Some(b) if version_at_least(b, x) => Some(b),
            _ => Some(x),
        }
    } else {
        best
    }
}

/// The greatest version among the runs.
pub open spec fn best_run(runs: Seq<Seq<char>>) -> Option<Seq<char>>
    decreases runs.len(),
{
    if runs.len() == 0 {
        None
    } else {
        better(best_run(runs.drop_last()), runs.last())
    }
}

/// The tag without a leading `v`.
pub open spec fn without_v(tag: Seq<char>) -> Seq<char> {
    if tag.len() > 0 && tag[0] == 'v' {
        tag.drop_first()
    } else {
        tag
    }
}

/// The version that a release tag names: the whole tag but for a leading `v`, else the greatest
/// version that stands somewhere in it.
pub open spec fn tag_version(tag: Seq<char>) -> Option<Seq<char>> {
    let t = text::trimmed(tag);
    if version_problem(without_v(t)) is None {
        Some(without_v(t))
    } else {
        best_run(number_runs(t, 0))
    }
}

fn is_digit(c: char) -> (r: bool)
    ensures
        r == ascii_digit(c),
{
    let n: u32 = c as u32;
    '0' as u32 <= n && n <= '9' as u32
}

fn count_dots(cs: &Vec<char>, from: usize, to: usize) -> (r: usize)
    requires
        from <= to <= cs@.len(),
    ensures
        r == dots(cs@.subrange(from as int, to as int)),
        r <= to - from,
{
    let mut n: usize = 0;
    let mut i: usize = from;
    while i < to
        invariant
            from <= i <= to <= cs@.len(),
            n == dots(cs@.subrange(from as int, i as int)),
            n <= i - from,
        decreases to - i,
    {
        proof {
            let s = cs@.subrange(from as int, i + 1);
            assert(s.drop_last() =~= cs@.subrange(from as int, i as int));
            assert(s.last() == cs@[i as int]);
        }
        if cs[i] == '.' {
            n += 1;
        }
        i += 1;
    }
    n
}

proof fn lemma_best_prepend(done: Seq<Seq<char>>, x: Seq<char>)
    ensures
        best_run(done.push(x)) == better(best_run(done), x),
{
    assert(done.push(x).drop_last() =~= done);
}

fn find_run_end(cs: &Vec<char>, i: usize) -> (r: usize)
    requires
        i <= cs@.len(),
    ensures
        r == run_end(cs@, i as int),
        i <= r <= cs@.len(),
    decreases cs@.len() - i,
{
    if i < cs.len() && (is_digit(cs[i]) || cs[i] == '.') {
        find_run_end(cs, i + 1)
    } else {
        i
    }
}

fn best_in(cs: &Vec<char>) -> (r: Option<String>)
    ensures
        text::opt_view(r) == best_run(number_runs(cs@, 0)),
        r is Some ==> version_problem(r->0@) is None,
{
    let mut best: Option<String> = None;
    let mut i: usize = 0;
    let ghost mut done: Seq<Seq<char>> = Seq::empty();
    let ghost all = number_runs(cs@, 0);
    proof {
        assert(done + number_runs(cs@, 0) =~= all);
    }
    while i < cs.len()
        invariant
            i <= cs@.len(),
            all == number_runs(cs@, 0),
            done + number_runs(cs@, i as int) == all,
            text::opt_view(best) == best_run(done),
            best is Some ==> version_problem(best->0@) is None,
        decreases cs@.len() - i,
    {
        if is_digit(cs[i]) {
            let end = find_run_end(cs, i);
            proof {
                lemma_run_end(cs@, i as int);
            }
            let slice = text::string_between(cs, i, end);
            let ghost run = cs@.subrange(i as int, end as int);
            let ghost rest = number_runs(cs@, end as int);
            proof {
                lemma_best_prepend(done, run);
                assert(number_runs(cs@, i as int) == seq![run] + rest);
                assert(done.push(run) + rest =~= done + (seq![run] + rest));
            }
            if count_dots(cs, i, end) >= 2 {
                let problem = parse_problem(&slice);
                if problem.is_none() {
                    let keep = match &best {
                        Some(b) => at_least(b, &slice),
                        None => false,
                    };
                    if !keep {
                        best = Some(slice);
                    }
                }
            }
            proof {
                done = done.push(run);
            }
            i = end;
        } else {
            i += 1;
        }
    }
    proof {
        assert(number_runs(cs@, i as int) =~= Seq::empty());
        assert(done =~= all);
    }
    best
}

/// The version that a release tag names.
pub fn version_from_release_tag(tag: &str) -> (r: Option<String>)
    ensures
        text::opt_view(r) == tag_version(tag@),
        r is Some ==> version_problem(r->0@) is None,
        forall|a: u64, b: u64, c: u64|
            (without_v(text::trimmed(tag@)) == #[trigger] dotted(a, b, c)) ==> text::opt_view(r) == Some(
                dotted(a, b, c),
            ),
{
    let t = text::trim(tag);
    let cs = text::chars_of(&t);
    let core = if cs.len() > 0 && cs[0] == 'v' {
        let u = text::string_between(&cs, 1, cs.len());
        assert(u@ =~= without_v(t@));
        u
    } else {
        text::copied(&t)
    };
    let problem = parse_problem(&core);
    if problem.is_none() {
        return Some(core);
    }
    best_in(&cs)
}

/// The release that a tag names is newer than the current version, which must be one.
pub fn is_newer(latest: &str, current: &str) -> (r: Option<bool>)
    ensures
        match r {
            Some(b) => version_problem(latest@) is None && version_problem(current@) is None && b
                == !version_at_least(current@, latest@),
            None => version_problem(latest@) is Some || version_problem(current@) is Some,
        },
        forall|x: u64, y: u64, z: u64, u: u64, v: u64, w: u64|
            latest@ == #[trigger] dotted(x, y, z) && current@ == #[trigger] dotted(u, v, w) ==> r
                == Some(!numbers_at_least((u, v, w), (x, y, z))),
{
    let a = parse_problem(latest);
    let b = parse_problem(current);
    if a.is_none() && b.is_none() {
        Some(!at_least(current, latest))
    } else {
        None
    }
}

// ---- releases -----------------------------------------------------------------------------

/// A file of a release.
#[derive(Debug)]
pub struct GhAsset {
    pub name: String,
    pub browser_download_url: String,
    pub size: u64,
}

/// A release as the server describes it.
#[derive(Debug)]
pub struct GhRelease {
    pub tag_name: String,
    pub html_url: String,
    pub published_at: Option<String>,
    pub body: Option<String>,
    pub assets: Vec<GhAsset>,
}

/// The file is the installer for Windows.
pub open spec fn is_setup(name: Seq<char>) -> bool {
    let n = text::lowercased(name);
    text::begins_with(n, "findx-"@) && text::finishes_with(n, "-setup.exe"@)
}

/// The place of the first installer among the files.
pub open spec fn first_setup(assets: Seq<GhAsset>) -> Option<int>
    decreases assets.len(),
{
    if assets.len() == 0 {
        None
    } else {
        match first_setup(assets.drop_last()) {
            Some(i) => Some(i),
            None => if is_setup(assets.last().name@) {
                Some(assets.len() - 1)
            } else {
                None
            },
        }
    }
}

proof fn lemma_setup_stays(assets: Seq<GhAsset>, i: int)
    requires
        0 <= i <= assets.len(),
        first_setup(assets.take(i)) is Some,
    ensures
        first_setup(assets) == first_setup(assets.take(i)),
    decreases assets.len() - i,
{
    if i == assets.len() {
        assert(assets.take(i) =~= assets);
    } else {
        assert(assets.take(i + 1).drop_last() =~= assets.take(i));
        lemma_setup_stays(assets, i + 1);
    }
}

/// The installer among the files of a release; other systems have none.
pub fn pick_windows_setup_asset(assets: &Vec<GhAsset>, windows: bool) -> (r: Option<usize>)
    ensures
        match r {
            Some(i) => windows && first_setup(assets@) == Some(i as int) && i < assets@.len(),
            None => !windows || first_setup(assets@) is None,
        },
{
    if !windows {
        return None;
    }
    let mut i: usize = 0;
    proof {
        assert(assets@.take(0) =~= Seq::empty());
    }
    while i < assets.len()
        invariant
            i <= assets.len(),
            windows,
            first_setup(assets@.take(i as int)) is None,
        decreases assets.len() - i,
    {
        proof {
            assert(assets@.take(i + 1).drop_last() =~= assets@.take(i as int));
            assert(assets@.take(i + 1).last() == assets@[i as int]);
        }
        let n = text::to_lower(&assets[i].name);
        if text::starts_with(&n, "findx-") && text::ends_with(&n, "-setup.exe") {
            proof {
                lemma_setup_stays(assets@, i + 1);
            }
            return Some(i);
        }
        i += 1;
    }
    assert(assets@.take(assets@.len() as int) =~= assets@);
    None
}

/// How many characters of the release notes are shown.
pub const NOTES_LIMIT: usize = 600;

/// The notes without white space around them, cut at the limit; nothing where they are blank.
pub open spec fn shown_notes(body: Option<Seq<char>>) -> Option<Seq<char>> {
    match body {
        None => None,
        Some(b) => {
            let t = text::trimmed(b);
            if t.len() == 0 {
                None
            } else if t.len() > NOTES_LIMIT {
                Some(t.take(NOTES_LIMIT as int).push('…'))
            } else {
                Some(t)
            }
        },
    }
}

pub fn truncate_notes(body: &Option<String>) -> (r: Option<String>)
    ensures
        text::opt_view(r) == shown_notes(text::opt_view(*body)),
{
    match body {
        None => None,
        Some(b) => {
            let t = text::trim(b);
            if t.as_str().is_empty() {
                return None;
            }
            let cs = text::chars_of(&t);
            if cs.len() > NOTES_LIMIT {
                let mut s = text::string_between(&cs, 0, NOTES_LIMIT);
                assert(s@ =~= t@.take(NOTES_LIMIT as int));
                s.push('…');
                Some(s)
            } else {
                Some(t)
            }
        },
    }
}

/// What a check reports.
#[derive(Debug, Clone)]
pub struct AppUpdateInfo {
    pub ok: bool,
    pub error: Option<String>,
    pub current_version: String,
    pub latest_version: Option<String>,
    pub has_update: bool,
    pub release_page_url: Option<String>,
    pub published_at: Option<String>,
    pub download_url: Option<String>,
    pub asset_size: Option<u64>,
    pub release_notes: Option<String>,
}

pub struct AppUpdateInfoView {
    pub ok: bool,
    pub error: Option<Seq<char>>,
    pub current_version: Seq<char>,
    pub latest_version: Option<Seq<char>>,
    pub has_update: bool,
    pub release_page_url: Option<Seq<char>>,
    pub published_at: Option<Seq<char>>,
    pub download_url: Option<Seq<char>>,
    pub asset_size: Option<u64>,
    pub release_notes: Option<Seq<char>>,
}

impl View for AppUpdateInfo {
    type V = AppUpdateInfoView;

    open spec fn view(&self) -> AppUpdateInfoView {
        AppUpdateInfoView {
            ok: self.ok,
            error: text::opt_view(self.error),
            current_version: self.current_version@,
            latest_version: text::opt_view(self.latest_version),
            has_update: self.has_update,
            release_page_url: text::opt_view(self.release_page_url),
            published_at: text::opt_view(self.published_at),
            download_url: text::opt_view(self.download_url),
            asset_size: self.asset_size,
            release_notes: text::opt_view(self.release_notes),
        }
    }
}

/// What came of asking the server.
#[derive(Debug)]
pub enum ReleaseAnswer {
    /// The request failed.
    NoAnswer(String),
    /// The server answered. `release` is what the body says where it can be read as a release.
    Answer { status: u16, body: Result<String, String>, release: Result<GhRelease, String> },
}

/// The address that is asked.
pub fn release_url() -> (r: String)
    ensures
        r@ == "https://api.github.com/repos/chaojimct/findx/releases/latest"@,
{
    text::copied("https://api.github.com/repos/chaojimct/findx/releases/latest")
}

/// A report without a release.
pub open spec fn plain_info(current: Seq<char>, ok: bool, error: Option<Seq<char>>) ->
    AppUpdateInfoView {
    AppUpdateInfoView {
        ok,
        error,
        current_version: current,
        latest_version: None,
        has_update: false,
        release_page_url: None,
        published_at: None,
        download_url: None,
        asset_size: None,
        release_notes: None,
    }
}

pub open spec fn http_text(status: u16, body: Seq<char>) -> Seq<char> {
    let tail = if body.len() > 200 {
        body.take(200)
    } else {
        body
    };
    "GitHub API 返回 HTTP "@ + text::decimal(status as nat) + (if tail.len() == 0 {
        Seq::empty()
    } else {
        "："@ + tail
    })
}

/// The report on a release whose version is `latest` (nothing where the tag names none), newer
/// than the current one or not.
pub open spec fn release_info(
    current: Seq<char>,
    r: GhRelease,
    latest: Option<Seq<char>>,
    newer: bool,
    windows: bool,
) -> AppUpdateInfoView {
    let setup = if windows {
        first_setup(r.assets@)
    } else {
        None
    };
    let base = AppUpdateInfoView {
        latest_version: Some(r.tag_name@),
        release_page_url: Some(r.html_url@),
        published_at: text::opt_view(r.published_at),
        release_notes: shown_notes(text::opt_view(r.body)),
        ..plain_info(current, true, None)
    };
    match latest {
        None => AppUpdateInfoView {
            error: Some(
                "最新发行标签「"@ + r.tag_name@
                    + "」无法解析为语义化版本，请手动对照"@,
            ),
            ..base
        },
        Some(_) => AppUpdateInfoView {
            has_update: newer,
            download_url: match setup {
                Some(i) if newer => Some(r.assets@[i].browser_download_url@),
                _ => None,
            },
            asset_size: match setup {
                Some(i) if newer => Some(r.assets@[i].size),
                _ => None,
            },
            ..base
        },
    }
}

/// The report on an answer, for a current version that is one.
pub open spec fn answer_info(
    current: Seq<char>,
    answer: ReleaseAnswer,
    latest: Option<Seq<char>>,
    newer: bool,
    windows: bool,
) -> AppUpdateInfoView {
    match answer {
        ReleaseAnswer::NoAnswer(e) => plain_info(
            current,
            false,
            Some("请求 GitHub 失败："@ + e@),
        ),
        ReleaseAnswer::Answer { status, body, release } => if status == 404 {
            AppUpdateInfoView {
                release_page_url: Some("https://github.com/chaojimct/findx/releases"@),
                ..plain_info(current, true, None)
            }
        } else if status < 200 || status >= 300 {
            plain_info(
                current,
                false,
                Some(
                    http_text(
                        status,
                        match body {
                            Ok(b) => b@,
                            Err(_) => Seq::empty(),
                        },
                    ),
                ),
            )
        } else {
            match body {
                Err(e) => plain_info(current, false, Some("读取响应失败："@ + e@)),
                Ok(_) => match release {
                    Err(e) => plain_info(
                        current,
                        false,
                        Some("解析 GitHub 响应失败："@ + e@),
                    ),
                    Ok(r) => release_info(current, r, latest, newer, windows),
                },
            }
        },
    }
}

fn no_release(current: &str, ok: bool, error: Option<String>) -> (r: AppUpdateInfo)
    ensures
        r@ == plain_info(current@, ok, text::opt_view(error)),
{
    AppUpdateInfo {
        ok,
        error,
        current_version: text::copied(current),
        latest_version: None,
        has_update: false,
        release_page_url: None,
        published_at: None,
        download_url: None,
        asset_size: None,
        release_notes: None,
    }
}

fn with_reason(head: &str, e: &str) -> (r: Option<String>)
    ensures
        text::opt_view(r) == Some(head@ + e@),
{
    let mut s = text::copied(head);
    s.push_str(e);
    Some(s)
}

/// The report on a release, given the version that its tag names and whether that is newer.
pub fn describe_release(
    current: &str,
    r: GhRelease,
    latest: &Option<String>,
    newer: bool,
    windows: bool,
) -> (info: AppUpdateInfo)
    ensures
        info@ == release_info(current@, r, text::opt_view(*latest), newer, windows),
{
    let setup = pick_windows_setup_asset(&r.assets, windows);
    let mut info = no_release(current, true, None);
    info.release_notes = truncate_notes(&r.body);
    match latest {
        None => {
            let mut e = text::copied("最新发行标签「");
            e.push_str(&r.tag_name);
            e.push_str("」无法解析为语义化版本，请手动对照");
            info.error = Some(e);
        },
        Some(_) => {
            info.has_update = newer;
            if newer {
                match setup {
                    Some(i) => {
                        info.download_url = Some(text::copied(&r.assets[i].browser_download_url));
                        info.asset_size = Some(r.assets[i].size);
                    },
                    None => {},
                }
            }
        },
    }
    info.latest_version = Some(r.tag_name);
    info.release_page_url = Some(r.html_url);
    info.published_at = r.published_at;
    info
}

fn bad_status(status: u16, body: &Result<String, String>) -> (r: String)
    ensures
        r@ == http_text(
            status,
            match *body {
                Ok(b) => b@,
                Err(_) => Seq::empty(),
            },
        ),
{
    let mut s = text::copied("GitHub API 返回 HTTP ");
    s.push_str(&text::decimal_text(status as u64));
    let ghost head = s@;
    match body {
        Ok(b) => {
            let cs = text::chars_of(b);
            let n: usize = if cs.len() > 200 {
                200
            } else {
                cs.len()
            };
            let tail = text::string_between(&cs, 0, n);
            proof {
                if b@.len() > 200 {
                    assert(tail@ =~= b@.take(200));
                } else {
                    assert(tail@ =~= b@);
                }
            }
            if n > 0 {
                s.push_str("：");
                s.push_str(&tail);
                proof {
                    assert(s@ =~= head + ("："@ + tail@));
                }
            } else {
                assert(head + Seq::empty() =~= head);
            }
        },
        Err(_) => {
            assert(head + Seq::empty() =~= head);
        },
    }
    s
}

/// What an answer reports where the version of the release and its being newer are known.
pub fn describe_answer(
    current: &str,
    answer: ReleaseAnswer,
    latest: &Option<String>,
    newer: bool,
    windows: bool,
) -> (info: AppUpdateInfo)
    ensures
        info@ == answer_info(current@, answer, text::opt_view(*latest), newer, windows),
{
    match answer {
        ReleaseAnswer::NoAnswer(e) => no_release(
            current,
            false,
            with_reason("请求 GitHub 失败：", &e),
        ),
        ReleaseAnswer::Answer { status, body, release } => {
            if status == 404 {
                let mut info = no_release(current, true, None);
                info.release_page_url = Some(
                    text::copied("https://github.com/chaojimct/findx/releases"),
                );
                return info;
            }
            if status < 200 || status >= 300 {
                return no_release(current, false, Some(bad_status(status, &body)));
            }
            match body {
                Err(e) => no_release(current, false, with_reason("读取响应失败：", &e)),
                Ok(_) => match release {
                    Err(e) => no_release(
                        current,
                        false,
                        with_reason("解析 GitHub 响应失败：", &e),
                    ),
                    Ok(r) => describe_release(current, r, latest, newer, windows),
                },
            }
        },
    }
}

/// The tag of the release in an answer, where it holds one.
pub open spec fn answered_tag(answer: ReleaseAnswer) -> Option<Seq<char>> {
    match answer {
        ReleaseAnswer::Answer { status, body: Ok(_), release: Ok(r) } if 200 <= status < 300 =>
            Some(r.tag_name@),
        _ => None,
    }
}

/// Compares the current version with the release that the server named.
pub fn check_app_update(current: &str, answer: ReleaseAnswer, windows: bool) -> (info:
    AppUpdateInfo)
    ensures
        match version_problem(current@) {
            Some(e) => info@ == plain_info(
                current@,
                false,
                Some("当前版本号无法解析为语义化版本："@ + e),
            ),
            None => {
                let latest = match answered_tag(answer) {
                    Some(t) => tag_version(t),
                    None => None,
                };
                info@ == answer_info(
                    current@,
                    answer,
                    latest,
                    latest matches Some(v) && !version_at_least(current@, v),
                    windows,
                )
            },
        },
{
    match parse_problem(current) {
        Some(e) => {
            return no_release(
                current,
                false,
                with_reason("当前版本号无法解析为语义化版本：", &e),
            );
        },
        None => {},
    }
    let latest = match &answer {
        ReleaseAnswer::Answer { status, body, release } => {
            if *status >= 200 && *status < 300 && body.is_ok() {
                match release {
                    Ok(r) => version_from_release_tag(&r.tag_name),
                    Err(_) => None,
                }
            } else {
                None
            }
        },
        ReleaseAnswer::NoAnswer(_) => None,
    };
    let newer = match &latest {
        Some(v) => !at_least(current, v),
        None => false,
    };
    describe_answer(current, answer, &latest, newer, windows)
}

/// A download is offered only with an update, and only where the release has an installer for
/// the system.
pub proof fn law_download_needs_update(
    current: Seq<char>,
    answer: ReleaseAnswer,
    latest: Option<Seq<char>>,
    newer: bool,
    windows: bool,
)
    ensures
        ({
            let info = answer_info(current, answer, latest, newer, windows);
            &&& info.has_update ==> newer && latest is Some
            &&& info.download_url is Some ==> info.has_update && windows
            &&& info.asset_size is Some <==> info.download_url is Some
            &&& info.current_version == current
        }),
{
}

/// What the program says of a release that it could read: the tag, page, date and notes of that
/// very release; an update exactly where its version is newer; and with an update on Windows the
/// address and size of its first installer.
pub proof fn law_release_is_described(
    current: Seq<char>,
    r: GhRelease,
    latest: Seq<char>,
    newer: bool,
    windows: bool,
    i: int,
)
    ensures
        ({
            let info = release_info(current, r, Some(latest), newer, windows);
            &&& info.ok && info.error is None
            &&& info.current_version == current
            &&& info.latest_version == Some(r.tag_name@)
            &&& info.release_page_url == Some(r.html_url@)
            &&& info.published_at == text::opt_view(r.published_at)
            &&& info.release_notes == shown_notes(text::opt_view(r.body))
            &&& info.has_update == newer
            &&& newer && windows && first_of_setups(r.assets@, i) ==> info.download_url == Some(
                r.assets@[i].browser_download_url@,
            ) && info.asset_size == Some(r.assets@[i].size)
            &&& !newer || !windows ==> info.download_url is None && info.asset_size is None
            &&& (forall|j: int| 0 <= j < r.assets@.len() ==> !is_setup((#[trigger] r.assets@[j]).name@))
                ==> info.download_url is None
        }),
{
    lemma_first_setup(r.assets@);
    match first_setup(r.assets@) {
        Some(k) => {
            if first_of_setups(r.assets@, i) {
                if k < i {
                    assert(!is_setup(r.assets@[k].name@));
                } else if i < k {
                    assert(!is_setup(r.assets@[i].name@));
                }
            }
        },
        None => {},
    }
}

/// Asset `i` is the first that is an installer.
pub open spec fn first_of_setups(assets: Seq<GhAsset>, i: int) -> bool {
    &&& 0 <= i < assets.len()
    &&& is_setup(assets[i].name@)
    &&& forall|j: int| 0 <= j < i ==> !is_setup((#[trigger] assets[j]).name@)
}

proof fn lemma_first_setup(assets: Seq<GhAsset>)
    ensures
        match first_setup(assets) {
            Some(i) => first_of_setups(assets, i),
            None => forall|j: int| 0 <= j < assets.len() ==> !is_setup((#[trigger] assets[j]).name@),
        },
    decreases assets.len(),
{
    if assets.len() > 0 {
        let t = assets.drop_last();
        lemma_first_setup(t);
        assert(assets.last() == assets[assets.len() - 1]);
        match first_setup(t) {
            Some(i) => {
                assert(assets[i] == t[i]);
                assert forall|j: int| 0 <= j < i implies !is_setup((#[trigger] assets[j]).name@) by {
                    assert(assets[j] == t[j]);
                }
            },
            None => {
                assert forall|j: int| 0 <= j < t.len() implies !is_setup(
                    (#[trigger] assets[j]).name@,
                ) by {
                    assert(assets[j] == t[j]);
                }
            },
        }
    }
}

/// A release whose version cannot be read is shown without an update; an answer with another status
/// than success is an error, except that there is no release yet.
pub proof fn law_unreadable_answers(
    current: Seq<char>,
    r: GhRelease,
    windows: bool,
    status: u16,
    body: Result<String, String>,
    release: Result<GhRelease, String>,
)
    ensures
        ({
            let info = release_info(current, r, None, false, windows);
            info.ok && info.error is Some && !info.has_update && info.download_url is None
                && info.latest_version == Some(r.tag_name@)
        }),
        status != 404 && !(200 <= status < 300) ==> ({
            let info = answer_info(
                current,
                ReleaseAnswer::Answer { status, body, release },
                None,
                false,
                windows,
            );
            !info.ok && info.error is Some && !info.has_update
        }),
        status == 404 ==> ({
            let info = answer_info(
                current,
                ReleaseAnswer::Answer { status, body, release },
                None,
                false,
                windows,
            );
            info.ok && info.error is None && !info.has_update && info.latest_version is None
        }),
{
}

/// Notes are shown without the white space around them, and up to 600 characters.
pub proof fn law_shown_notes(b: Seq<char>)
    ensures
        text::trimmed(b).len() == 0 ==> shown_notes(Some(b)) is None,
        0 < text::trimmed(b).len() <= 600 ==> shown_notes(Some(b)) == Some(text::trimmed(b)),
        text::trimmed(b).len() > 600 ==> (shown_notes(Some(b)) matches Some(n) && n.len() == 601
            && n.take(600) == text::trimmed(b).take(600)),
{
    let t = text::trimmed(b);
    if t.len() > 600 {
        assert(t.take(600).push('…').take(600) =~= t.take(600));
    }
}

/// A digit or a dot.
pub open spec fn digit_or_dot(c: char) -> bool {
    0x30 <= c as u32 <= 0x39 || c == '.'
}

/// The characters from `i` to before `j` are a number with dots: they begin with a digit, go as far
/// as digits and dots go, and nothing but dots stands before them up to where such characters begin.
pub open spec fn stretch(s: Seq<char>, i: int, j: int) -> bool {
    &&& 0 <= i < j <= s.len()
    &&& 0x30 <= s[i] as u32 <= 0x39
    &&& forall|k: int| i <= k < j ==> digit_or_dot(#[trigger] s[k])
    &&& j < s.len() ==> !digit_or_dot(s[j])
    &&& fresh(s, i)
}

/// Only dots stand before place `i`, back to the start or to what is neither digit nor dot.
pub open spec fn fresh(s: Seq<char>, i: int) -> bool
    decreases i,
{
    i <= 0 || !digit_or_dot(s[i - 1]) || (s[i - 1] == '.' && fresh(s, i - 1))
}

proof fn lemma_run_of_digits(s: Seq<char>, i: int)
    requires
        0 <= i <= s.len(),
    ensures
        i <= run_end(s, i) <= s.len(),
        forall|k: int| i <= k < run_end(s, i) ==> digit_or_dot(#[trigger] s[k]),
        run_end(s, i) < s.len() ==> !digit_or_dot(s[run_end(s, i)]),
    decreases s.len() - i,
{
    if i < s.len() && (ascii_digit(s[i]) || s[i] == '.') {
        lemma_run_of_digits(s, i + 1);
        assert forall|k: int| i <= k < run_end(s, i) implies digit_or_dot(#[trigger] s[k]) by {
            if k > i {
                assert(run_end(s, i) == run_end(s, i + 1));
            }
        }
    }
}

proof fn lemma_run_from(s: Seq<char>, i: int)
    requires
        0 <= i < s.len(),
        ascii_digit(s[i]),
    ensures
        run_end(s, i) == run_end(s, i + 1),
        i + 1 <= run_end(s, i) <= s.len(),
{
    lemma_run_of_digits(s, i + 1);
}

proof fn lemma_not_fresh(s: Seq<char>, i: int, j: int)
    requires
        0 <= i < j <= s.len(),
        ascii_digit(s[i]),
        forall|k: int| i <= k < j ==> digit_or_dot(#[trigger] s[k]),
    ensures
        !fresh(s, j),
    decreases j - i,
{
    assert(digit_or_dot(s[j - 1]));
    if s[j - 1] == '.' {
        assert(i < j - 1);
        lemma_not_fresh(s, i, j - 1);
    }
}

proof fn lemma_runs(s: Seq<char>, i: int, a: int, b: int)
    requires
        0 <= i <= s.len(),
        fresh(s, i),
        i <= a,
        stretch(s, a, b),
    ensures
        number_runs(s, i).contains(s.subrange(a, b)),
    decreases s.len() - i,
{
    let all = number_runs(s, i);
    let x = s.subrange(a, b);
    if ascii_digit(s[i]) {
        let e = run_end(s, i);
        lemma_run_from(s, i);
        lemma_run_of_digits(s, i);
        let rest = number_runs(s, e);
        if a == i {
            assert(b == e) by {
                if b < e {
                    assert(digit_or_dot(s[b]));
                }
                if e < b {
                    assert(digit_or_dot(s[e]));
                }
            }
            assert(all[0] == x);
        } else {
            if a < e {
                assert forall|k: int| i <= k < a implies digit_or_dot(#[trigger] s[k]) by {}
                lemma_not_fresh(s, i, a);
            }
            if e < s.len() {
                assert(!digit_or_dot(s[e]));
                assert(a != e);
                assert(!ascii_digit(s[e]));
                reveal_with_fuel(number_runs, 2);
                assert(number_runs(s, e) == number_runs(s, e + 1));
                lemma_runs(s, e + 1, a, b);
                let k = choose|k: int| 0 <= k < rest.len() && rest[k] == x;
                assert(all[k + 1] == x);
            }
        }
    } else {
        assert(a != i);
        lemma_runs(s, i + 1, a, b);
    }
}

proof fn lemma_runs_are_stretches(s: Seq<char>, i: int, n: int) -> (r: (int, int))
    requires
        0 <= i <= s.len(),
        fresh(s, i),
        0 <= n < number_runs(s, i).len(),
    ensures
        stretch(s, r.0, r.1),
        number_runs(s, i)[n] == s.subrange(r.0, r.1),
    decreases s.len() - i,
{
    if ascii_digit(s[i]) {
        let e = run_end(s, i);
        lemma_run_from(s, i);
        lemma_run_of_digits(s, i);
        if n == 0 {
            (i, e)
        } else {
            assert(number_runs(s, i)[n] == number_runs(s, e)[n - 1]);
            assert(e < s.len());
            assert(!digit_or_dot(s[e]));
            assert(!ascii_digit(s[e]));
            reveal_with_fuel(number_runs, 2);
            assert(number_runs(s, e) == number_runs(s, e + 1));
            lemma_runs_are_stretches(s, e + 1, n - 1)
        }
    } else {
        lemma_runs_are_stretches(s, i + 1, n)
    }
}

proof fn lemma_dots(s: Seq<char>)
    ensures
        dots(s) == s.filter(|c: char| c == '.').len(),
    decreases s.len(),
{
    reveal(Seq::filter);
    if s.len() > 0 {
        lemma_dots(s.drop_last());
    }
}

/// A text that may stand for a version: it has at least two dots and can be read as one.
pub open spec fn readable_version(x: Seq<char>) -> bool {
    x.filter(|c: char| c == '.').len() >= 2 && version_problem(x) is None
}

proof fn lemma_best(runs: Seq<Seq<char>>)
    ensures
        best_run(runs) matches Some(x) ==> runs.contains(x) && readable_version(x),
        best_run(runs) is None ==> forall|k: int|
            0 <= k < runs.len() ==> !readable_version(#[trigger] runs[k]),
    decreases runs.len(),
{
    if runs.len() > 0 {
        let t = runs.drop_last();
        lemma_best(t);
        lemma_dots(runs.last());
        assert(runs[runs.len() - 1] == runs.last());
        if best_run(runs) == best_run(t) && best_run(t) is Some {
            let k = choose|k: int| 0 <= k < t.len() && t[k] == best_run(t)->0;
            assert(runs[k] == t[k]);
        }
        assert forall|k: int| best_run(runs) is None && 0 <= k < runs.len() implies !readable_version(
            #[trigger] runs[k],
        ) by {
            if k < t.len() {
                assert(t[k] == runs[k]);
            }
        }
    }
}

/// The version of a tag: what stands behind its `v`, or all of it, where that is a version; else a
/// number with at least two dots inside it that is one, and there is none only where no such number
/// is.
pub proof fn law_version_of_a_tag(tag: Seq<char>)
    ensures
        ({
            let t = text::trimmed(tag);
            let bare = if t.len() > 0 && t[0] == 'v' {
                t.skip(1)
            } else {
                t
            };
            &&& version_problem(bare) is None ==> tag_version(tag) == Some(bare)
            &&& version_problem(bare) is Some ==> match tag_version(tag) {
                Some(x) => readable_version(x) && exists|i: int, j: int|
                    #[trigger] stretch(t, i, j) && x == t.subrange(i, j),
                None => forall|i: int, j: int|
                    #[trigger] stretch(t, i, j) ==> !readable_version(t.subrange(i, j)),
            }
        }),
{
    let t = text::trimmed(tag);
    let runs = number_runs(t, 0);
    if t.len() > 0 {
        assert(t.drop_first() =~= t.skip(1));
    }
    lemma_best(runs);
    if version_problem(without_v(t)) is Some {
        match tag_version(tag) {
            Some(x) => {
                let n = choose|n: int| 0 <= n < runs.len() && runs[n] == x;
                let r = lemma_runs_are_stretches(t, 0, n);
                assert(stretch(t, r.0, r.1));
            },
            None => {
                assert forall|i: int, j: int| #[trigger] stretch(t, i, j) implies !readable_version(
                    t.subrange(i, j),
                ) by {
                    lemma_runs(t, 0, i, j);
                    let k = choose|k: int| 0 <= k < runs.len() && runs[k] == t.subrange(i, j);
                    assert(!readable_version(runs[k]));
                }
            },
        }
    }
}

/// Versions are ordered by the first of the three numbers in which they differ, and nothing but an
/// equal version is at least as late both ways.
pub proof fn law_order_of_versions(a: (u64, u64, u64), b: (u64, u64, u64))
    ensures
        a.0 < b.0 ==> !numbers_at_least(a, b) && numbers_at_least(b, a),
        a.0 == b.0 && a.1 < b.1 ==> !numbers_at_least(a, b) && numbers_at_least(b, a),
        a.0 == b.0 && a.1 == b.1 && a.2 < b.2 ==> !numbers_at_least(a, b) && numbers_at_least(b, a),
        numbers_at_least(a, b) && numbers_at_least(b, a) <==> a == b,
{
}

} // verus!
