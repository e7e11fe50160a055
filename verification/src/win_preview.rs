//! The preview pane: a window of its own above the web view that holds the handler of the system.
use vstd::prelude::*;
use crate::text;

verus! {

/// A rectangle on the screen or in a window.
#[derive(Debug, Clone, Copy, PartialEq, Eq, Structural)]
pub struct Bounds {
    pub left: i32,
    pub top: i32,
    pub right: i32,
    pub bottom: i32,
}

/// Where the page wants the preview, in pixels of the web view.
#[derive(Debug, Clone, Copy, PartialEq, Eq, Structural)]
pub struct ClientRect {
    pub x: i32,
    pub y: i32,
    pub w: i32,
    pub h: i32,
}

pub open spec fn at_least_one(n: i32) -> i32 {
    if n < 1 {
        1
    } else {
        n
    }
}

fn one_or_more(n: i32) -> (r: i32)
    ensures
        r == at_least_one(n),
{
    if n < 1 {
        1
    } else {
        n
    }
}

/// The rectangle with this corner and at least one pixel each way.
pub open spec fn screen_bounds(left: i32, top: i32, c: ClientRect) -> Bounds {
    Bounds {
        left,
        top,
        right: (left + at_least_one(c.w)) as i32,
        bottom: (top + at_least_one(c.h)) as i32,
    }
}

/// The rectangle lies in the range of coordinates.
pub open spec fn in_range(left: i32, top: i32, c: ClientRect) -> bool {
    left + at_least_one(c.w) <= i32::MAX && top + at_least_one(c.h) <= i32::MAX
}

/// The rectangle on the screen, where the system has moved the corner to `left`, `top`.
pub fn client_to_screen_rect(left: i32, top: i32, c: ClientRect) -> (r: Bounds)
    requires
        in_range(left, top, c),
    ensures
        r == screen_bounds(left, top, c),
        r.right > r.left,
        r.bottom > r.top,
{
    Bounds { left, top, right: left + one_or_more(c.w), bottom: top + one_or_more(c.h) }
}

/// The rectangle inside the window that holds the preview.
pub open spec fn inner(c: ClientRect) -> Bounds {
    Bounds { left: 0, top: 0, right: at_least_one(c.w), bottom: at_least_one(c.h) }
}

/// The classes of the windows in which the page is drawn.
pub open spec fn webview_class(name: Seq<char>) -> bool {
    text::begins_with(name, "Chrome_WidgetWin"@) || text::holds(name, "Microsoft.UI.Content"@)
        || name == "Intermediate D3D Window"@
}

pub fn is_webview_class(name: &str) -> (r: bool)
    ensures
        r == webview_class(name@),
{
    text::starts_with(name, "Chrome_WidgetWin") || text::contains(name, "Microsoft.UI.Content")
        || text::same_text(name, "Intermediate D3D Window")
}

/// The window whose corner places the preview: the one that draws the page, else the whole
/// window. `classes` are the windows inside it with their classes, in the order of the system.
pub open spec fn host_of(top: u64, windows: Seq<(u64, Seq<char>)>) -> u64
    decreases windows.len(),
{
    if windows.len() == 0 {
        top
    } else if webview_class(windows[0].1) {
        windows[0].0
    } else {
        host_of(top, windows.drop_first())
    }
}

#[derive(Debug)]
pub struct ChildWindow {
    pub handle: u64,
    pub class: String,
}

pub open spec fn windows_view(v: Seq<ChildWindow>) -> Seq<(u64, Seq<char>)> {
    v.map_values(|w: ChildWindow| (w.handle, w.class@))
}

pub fn find_webview_host(top: u64, windows: &Vec<ChildWindow>) -> (r: u64)
    ensures
        r == host_of(top, windows_view(windows@)),
{
    let ghost all = windows_view(windows@);
    let mut i: usize = 0;
    assert(all.skip(0) =~= all);
    while i < windows.len()
        invariant
            i <= windows.len(),
            all == windows_view(windows@),
            host_of(top, all) == host_of(top, all.skip(i as int)),
        decreases windows.len() - i,
    {
        assert(all.skip(i as int)[0] == (windows@[i as int].handle, windows@[i as int].class@));
        if is_webview_class(&windows[i].class) {
            return windows[i].handle;
        }
        assert(all.skip(i as int).drop_first() =~= all.skip(i + 1));
        i += 1;
    }
    top
}

// ---- what is shown ------------------------------------------------------------------------

/// The preview that is there. Windows are known by their handles.
#[derive(Debug)]
pub struct PreviewState {
    pub host: u64,
    pub path: String,
    pub owner_top: u64,
    pub owner_webview: u64,
    pub client: ClientRect,
    pub screen: Bounds,
}

/// Where the preview goes.
#[derive(Debug, Clone, Copy, PartialEq, Eq, Structural)]
pub struct Place {
    pub owner_top: u64,
    pub owner_webview: u64,
    pub client: ClientRect,
    pub screen: Bounds,
}

pub open spec fn placed(s: PreviewState, p: Place) -> PreviewState {
    PreviewState {
        owner_top: p.owner_top,
        owner_webview: p.owner_webview,
        client: p.client,
        screen: p.screen,
        ..s
    }
}

/// What showing a file begins with.
#[derive(Debug)]
pub enum ShowStart {
    Refused(String),
    /// The file is shown already: move this window, lay its contents out again and show it.
    Move(u64),
    /// Release this preview, if there is one, and make a new one.
    Make(Option<u64>),
}

pub open spec fn host_in(state: Option<PreviewState>) -> Option<u64> {
    match state {
        Some(s) => Some(s.host),
        None => None,
    }
}

fn move_to(s: &mut PreviewState, p: Place)
    ensures
        *final(s) == placed(*old(s), p),
{
    s.owner_top = p.owner_top;
    s.owner_webview = p.owner_webview;
    s.client = p.client;
    s.screen = p.screen;
}

/// Begins to show a file. The file that is shown already only moves.
pub fn show_preview(
    state: &mut Option<PreviewState>,
    path: &str,
    present: bool,
    is_dir: bool,
    place: Place,
) -> (r: ShowStart)
    ensures
        if !present {
            *final(state) == *old(state) && r is Refused && r->Refused_0@ == "预览目标不存在"@
        } else if is_dir {
            *final(state) == *old(state) && r is Refused && r->Refused_0@
                == "文件夹无可用预览"@
        } else {
            match *old(state) {
                Some(s) if s.path@ == path@ => r == ShowStart::Move(s.host) && *final(state)
                    == Some(placed(s, place)),
                _ => r == ShowStart::Make(host_in(*old(state))) && *final(state) is None,
            }
        },
{
    if !present {
        return ShowStart::Refused(text::copied("预览目标不存在"));
    }
    if is_dir {
        return ShowStart::Refused(text::copied("文件夹无可用预览"));
    }
    match state.take() {
        Some(s) => {
            let mut s = s;
            let host: u64 = s.host;
            if text::same_text(&s.path, path) {
                move_to(&mut s, place);
                *state = Some(s);
                ShowStart::Move(host)
            } else {
                ShowStart::Make(Some(host))
            }
        },
        None => ShowStart::Make(None),
    }
}

/// The steps of making a preview.
#[derive(Debug, Clone, Copy, PartialEq, Eq, Structural)]
pub enum ShowStage {
    /// Find the handler of the file.
    Find,
    /// Create the handler of the user's registry.
    CreatePrimary,
    /// Create the handler of the machine.
    CreateFallback,
    /// Hand over the file.
    Initialize,
    /// Make the window, still hidden.
    MakeHost,
    SetWindow,
    DoPreview,
    /// Lay out, show and remember the preview.
    Shown,
}

/// How a step ended: well, or with an error.
#[derive(Debug)]
pub struct StageResult {
    pub error: Option<String>,
    /// The error of the first handler, where a second one was tried.
    pub first_error: String,
    /// The machine has another handler for the file.
    pub has_fallback: bool,
}

pub struct StageResultView {
    pub error: Option<Seq<char>>,
    pub first_error: Seq<char>,
    pub has_fallback: bool,
}

impl View for StageResult {
    type V = StageResultView;

    open spec fn view(&self) -> StageResultView {
        StageResultView {
            error: text::opt_view(self.error),
            first_error: self.first_error@,
            has_fallback: self.has_fallback,
        }
    }
}

/// The step that follows, or why there is no preview.
pub open spec fn stage_after(stage: ShowStage, r: StageResultView) -> Result<ShowStage, Seq<char>> {
    match (stage, r.error) {
        (ShowStage::Find, None) => Ok(ShowStage::CreatePrimary),
        (ShowStage::Find, Some(_)) => Err("该文件类型未注册系统预览处理器"@),
        (ShowStage::CreatePrimary, None) => Ok(ShowStage::Initialize),
        (ShowStage::CreatePrimary, Some(e)) => if r.has_fallback {
            Ok(ShowStage::CreateFallback)
        } else if text::holds(e, "0x80040154"@) {
            Err("未找到可用的系统预览处理器（注册的处理器与本程序不兼容）"@)
        } else {
            Err("CoCreateInstance 预览处理器失败："@ + e)
        },
        (ShowStage::CreateFallback, None) => Ok(ShowStage::Initialize),
        (ShowStage::CreateFallback, Some(e)) => Err(
            "未找到可用的系统预览处理器：primary("@ + r.first_error + "); fallback("@ + e + ")"@,
        ),
        (ShowStage::Initialize, None) => Ok(ShowStage::MakeHost),
        (ShowStage::Initialize, Some(e)) => Err(e),
        (ShowStage::MakeHost, None) => Ok(ShowStage::SetWindow),
        (ShowStage::MakeHost, Some(e)) => Err("创建预览容器窗口失败: "@ + e),
        (ShowStage::SetWindow, None) => Ok(ShowStage::DoPreview),
        (ShowStage::SetWindow, Some(e)) => Err("IPreviewHandler::SetWindow 失败: "@ + e),
        (ShowStage::DoPreview, None) => Ok(ShowStage::Shown),
        (ShowStage::DoPreview, Some(e)) => Err("IPreviewHandler::DoPreview 失败: "@ + e),
        (ShowStage::Shown, _) => Ok(ShowStage::Shown),
    }
}

fn error_of(head: &str, e: &str) -> (r: Result<ShowStage, String>)
    ensures
        r is Err && r->Err_0@ == head@ + e@,
{
    let mut s = text::copied(head);
    s.push_str(e);
    Err(s)
}

pub fn next_stage(stage: ShowStage, result: &StageResult) -> (r: Result<ShowStage, String>)
    ensures
        text::with_text(r) == stage_after(stage, result@),
{
    match &result.error {
        None => Ok(
            match stage {
                ShowStage::Find => ShowStage::CreatePrimary,
                ShowStage::CreatePrimary => ShowStage::Initialize,
                ShowStage::CreateFallback => ShowStage::Initialize,
                ShowStage::Initialize => ShowStage::MakeHost,
                ShowStage::MakeHost => ShowStage::SetWindow,
                ShowStage::SetWindow => ShowStage::DoPreview,
                ShowStage::DoPreview => ShowStage::Shown,
                ShowStage::Shown => ShowStage::Shown,
            },
        ),
        Some(e) => match stage {
            ShowStage::Find => Err(text::copied("该文件类型未注册系统预览处理器")),
            ShowStage::CreatePrimary => {
                if result.has_fallback {
                    Ok(ShowStage::CreateFallback)
                } else if text::contains(e, "0x80040154") {
                    Err(
                        text::copied(
                            "未找到可用的系统预览处理器（注册的处理器与本程序不兼容）",
                        ),
                    )
                } else {
                    error_of("CoCreateInstance 预览处理器失败：", e)
                }
            },
            ShowStage::CreateFallback => {
                let mut s = text::copied("未找到可用的系统预览处理器：primary(");
                s.push_str(&result.first_error);
                s.push_str("); fallback(");
                s.push_str(e);
                s.push_str(")");
                Err(s)
            },
            ShowStage::Initialize => Err(text::copied(e)),
            ShowStage::MakeHost => error_of("创建预览容器窗口失败: ", e),
            ShowStage::SetWindow => error_of("IPreviewHandler::SetWindow 失败: ", e),
            ShowStage::DoPreview => error_of("IPreviewHandler::DoPreview 失败: ", e),
            ShowStage::Shown => Ok(ShowStage::Shown),
        },
    }
}

/// The preview is there.
pub fn remember_preview(state: &mut Option<PreviewState>, host: u64, path: String, place: Place)
    ensures
        *final(state) == Some(
            (PreviewState {
                host,
                path,
                owner_top: place.owner_top,
                owner_webview: place.owner_webview,
                client: place.client,
                screen: place.screen,
            }),
        ),
{
    *state = Some(
        PreviewState {
            host,
            path,
            owner_top: place.owner_top,
            owner_webview: place.owner_webview,
            client: place.client,
            screen: place.screen,
        },
    );
}

/// Moves the preview that is there; returns its window.
pub fn set_bounds(state: &mut Option<PreviewState>, place: Place) -> (r: Option<u64>)
    ensures
        r == host_in(*old(state)),
        match *old(state) {
            Some(s) => *final(state) == Some(placed(s, place)),
            None => *final(state) is None,
        },
{
    match state.take() {
        Some(s) => {
            let mut s = s;
            let host: u64 = s.host;
            move_to(&mut s, place);
            *state = Some(s);
            Some(host)
        },
        None => None,
    }
}

/// The window to hide; the preview stays and is quickly back for the same file.
pub fn hide_preview(state: &Option<PreviewState>) -> (r: Option<u64>)
    ensures
        r == host_in(*state),
{
    match state {
        Some(s) => Some(s.host),
        None => None,
    }
}

/// Forgets the preview; the handler of this window is unloaded and the window destroyed.
pub fn unload_preview(state: &mut Option<PreviewState>) -> (r: Option<u64>)
    ensures
        r == host_in(*old(state)),
        *final(state) is None,
{
    match state.take() {
        Some(s) => Some(s.host),
        None => None,
    }
}

/// The order of the steps.
pub open spec fn stage_rank(s: ShowStage) -> int {
    match s {
        ShowStage::Find => 0,
        ShowStage::CreatePrimary => 1,
        ShowStage::CreateFallback => 2,
        ShowStage::Initialize => 3,
        ShowStage::MakeHost => 4,
        ShowStage::SetWindow => 5,
        ShowStage::DoPreview => 6,
        ShowStage::Shown => 7,
    }
}

/// Making a preview only goes forward, so it ends; and a preview is shown only right after the
/// handler drew it without an error.
pub proof fn law_show_ends(stage: ShowStage, r: StageResultView)
    requires
        stage != ShowStage::Shown,
    ensures
        stage_after(stage, r) matches Ok(next) ==> stage_rank(next) > stage_rank(stage),
        stage_after(stage, r) == Ok::<ShowStage, Seq<char>>(ShowStage::Shown) <==> (stage
            == ShowStage::DoPreview && r.error is None),
{
}

/// The window never covers less than one pixel, whatever the page asks for.
pub proof fn law_bounds_are_real(left: i32, top: i32, c: ClientRect)
    requires
        in_range(left, top, c),
    ensures
        screen_bounds(left, top, c).right - screen_bounds(left, top, c).left == inner(c).right,
        screen_bounds(left, top, c).bottom - screen_bounds(left, top, c).top == inner(c).bottom,
        inner(c).right >= 1,
        inner(c).bottom >= 1,
{
}

/// The stages of a preview follow one another where nothing fails; another handler is tried only
/// where the first could not be made and there is one.
pub proof fn law_stages_of_a_preview(r: StageResultView)
    ensures
        r.error is None ==> {
            &&& stage_after(ShowStage::Find, r) == Ok::<ShowStage, Seq<char>>(ShowStage::CreatePrimary)
            &&& stage_after(ShowStage::CreatePrimary, r) == Ok::<ShowStage, Seq<char>>(
                ShowStage::Initialize,
            )
            &&& stage_after(ShowStage::CreateFallback, r) == Ok::<ShowStage, Seq<char>>(
                ShowStage::Initialize,
            )
            &&& stage_after(ShowStage::Initialize, r) == Ok::<ShowStage, Seq<char>>(ShowStage::MakeHost)
            &&& stage_after(ShowStage::MakeHost, r) == Ok::<ShowStage, Seq<char>>(ShowStage::SetWindow)
            &&& stage_after(ShowStage::SetWindow, r) == Ok::<ShowStage, Seq<char>>(
                ShowStage::DoPreview,
            )
        },
        r.error is Some ==> {
            &&& r.has_fallback ==> stage_after(ShowStage::CreatePrimary, r) == Ok::<
                ShowStage,
                Seq<char>,
            >(ShowStage::CreateFallback)
            &&& !r.has_fallback ==> stage_after(ShowStage::CreatePrimary, r) is Err
            &&& stage_after(ShowStage::Find, r) is Err
            &&& stage_after(ShowStage::CreateFallback, r) is Err
            &&& stage_after(ShowStage::Initialize, r) is Err
            &&& stage_after(ShowStage::MakeHost, r) is Err
            &&& stage_after(ShowStage::SetWindow, r) is Err
            &&& stage_after(ShowStage::DoPreview, r) is Err
        },
{
}

/// A preview that is moved is the same preview in another place.
pub proof fn law_placed(s: PreviewState, p: Place)
    ensures
        placed(s, p).host == s.host,
        placed(s, p).path == s.path,
        placed(s, p).owner_top == p.owner_top,
        placed(s, p).owner_webview == p.owner_webview,
        placed(s, p).client == p.client,
        placed(s, p).screen == p.screen,
{
}

/// The preview covers the part of the page that was asked for, where the page stands on the screen.
pub proof fn law_preview_covers_its_part(left: i32, top: i32, c: ClientRect)
    requires
        in_range(left, top, c),
        c.w >= 1,
        c.h >= 1,
    ensures
        screen_bounds(left, top, c).left == left,
        screen_bounds(left, top, c).top == top,
        screen_bounds(left, top, c).right == left + c.w,
        screen_bounds(left, top, c).bottom == top + c.h,
{
}

/// The preview lies in the first window that is the web view's, or else in the top window.
pub proof fn law_window_of_the_web_view(
    top: u64,
    before: Seq<(u64, Seq<char>)>,
    w: (u64, Seq<char>),
    after: Seq<(u64, Seq<char>)>,
)
    requires
        forall|i: int| 0 <= i < before.len() ==> !webview_class((#[trigger] before[i]).1),
    ensures
        webview_class(w.1) ==> host_of(top, before.push(w) + after) == w.0,
        host_of(top, before) == top,
    decreases before.len(),
{
    let all = before.push(w) + after;
    if before.len() == 0 {
        assert(all[0] == w);
    } else {
        let t = before.drop_first();
        assert(all[0] == before[0]);
        assert(all.drop_first() =~= t.push(w) + after);
        assert forall|i: int| 0 <= i < t.len() implies !webview_class((#[trigger] t[i]).1) by {
            assert(t[i] == before[i + 1]);
        }
        law_window_of_the_web_view(top, t, w, after);
    }
}

/// The windows of a web view are told by how their class is named.
pub proof fn law_classes_of_the_web_view(name: Seq<char>, rest: Seq<char>)
    ensures
        webview_class("Chrome_WidgetWin"@ + rest),
        webview_class("Intermediate D3D Window"@),
        text::holds(name, "Microsoft.UI.Content"@) ==> webview_class(name),
        webview_class(name) && !text::holds(name, "Microsoft.UI.Content"@) ==> name
            == "Intermediate D3D Window"@ || (name.len() >= 16 && name.take(16)
            == "Chrome_WidgetWin"@),
{
    reveal_strlit("Chrome_WidgetWin");
    let p = "Chrome_WidgetWin"@;
    assert((p + rest).take(16) =~= p);
    assert((p + rest).take(p.len() as int) =~= p);
}

} // verus!
