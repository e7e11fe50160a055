//! The tray icon with its menu, and the colours of the windows.
use vstd::prelude::*;
use crate::text;

verus! {

/// The pointer over the icon refreshes the menu at most once in this time: 400 ms.
pub const REFRESH_NANOS: u128 = 400_000_000;

// ---- the menu -----------------------------------------------------------------------------

/// A line of the menu: an entry with its name and its text, or a rule.
#[derive(Debug)]
pub enum TrayItem {
    Entry(&'static str, &'static str),
    Separator,
}

pub enum TrayItemView {
    Entry(Seq<char>, Seq<char>),
    Separator,
}

impl View for TrayItem {
    type V = TrayItemView;

    open spec fn view(&self) -> TrayItemView {
        match *self {
            TrayItem::Entry(id, label) => TrayItemView::Entry(id@, label@),
            TrayItem::Separator => TrayItemView::Separator,
        }
    }
}

pub open spec fn items_view(v: Seq<TrayItem>) -> Seq<TrayItemView> {
    v.map_values(|i: TrayItem| i@)
}

/// The menu; one entry starts or stops the service.
pub open spec fn menu_of(service_up: bool) -> Seq<TrayItemView> {
    seq![
        TrayItemView::Entry("findx-search"@, "打开搜索"@),
        TrayItemView::Entry("findx-settings"@, "设置…"@),
        TrayItemView::Separator,
        TrayItemView::Entry(
            "findx-service-toggle"@,
            if service_up {
                "停止索引服务"@
            } else {
                "启动索引服务"@
            },
        ),
        TrayItemView::Separator,
        TrayItemView::Entry("hide-window"@, "隐藏窗口"@),
        TrayItemView::Separator,
        TrayItemView::Entry("quit-app"@, "退出 FindX"@),
    ]
}

pub fn build_tray_menu(service_up: bool) -> (r: Vec<TrayItem>)
    ensures
        items_view(r@) == menu_of(service_up),
{
    let mut v: Vec<TrayItem> = Vec::new();
    v.push(TrayItem::Entry("findx-search", "打开搜索"));
    v.push(TrayItem::Entry("findx-settings", "设置…"));
    v.push(TrayItem::Separator);
    v.push(
        TrayItem::Entry(
            "findx-service-toggle",
            if service_up {
                "停止索引服务"
            } else {
                "启动索引服务"
            },
        ),
    );
    v.push(TrayItem::Separator);
    v.push(TrayItem::Entry("hide-window", "隐藏窗口"));
    v.push(TrayItem::Separator);
    v.push(TrayItem::Entry("quit-app", "退出 FindX"));
    assert(items_view(v@) =~= menu_of(service_up));
    v
}

/// What an entry does.
#[derive(Debug, Clone, Copy, PartialEq, Eq, Structural)]
pub enum TrayAction {
    OpenSearch,
    OpenSettings,
    ToggleService,
    HideWindow,
    Quit,
    Nothing,
}

pub open spec fn action_of(id: Seq<char>) -> TrayAction {
    if id == "findx-search"@ {
        TrayAction::OpenSearch
    } else if id == "findx-settings"@ {
        TrayAction::OpenSettings
    } else if id == "findx-service-toggle"@ {
        TrayAction::ToggleService
    } else if id == "hide-window"@ {
        TrayAction::HideWindow
    } else if id == "quit-app"@ {
        TrayAction::Quit
    } else {
        TrayAction::Nothing
    }
}

pub fn on_menu_event(id: &str) -> (r: TrayAction)
    ensures
        r == action_of(id@),
{
    if text::same_text(id, "findx-search") {
        TrayAction::OpenSearch
    } else if text::same_text(id, "findx-settings") {
        TrayAction::OpenSettings
    } else if text::same_text(id, "findx-service-toggle") {
        TrayAction::ToggleService
    } else if text::same_text(id, "hide-window") {
        TrayAction::HideWindow
    } else if text::same_text(id, "quit-app") {
        TrayAction::Quit
    } else {
        TrayAction::Nothing
    }
}

/// Every entry of the menu does something.
pub proof fn law_every_entry_acts(service_up: bool, i: int)
    requires
        0 <= i < menu_of(service_up).len(),
    ensures
        menu_of(service_up)[i] matches TrayItemView::Entry(id, _) ==> action_of(id)
            != TrayAction::Nothing,
{
}

/// The entry of the service was chosen.
#[derive(Debug, Clone, Copy, PartialEq, Eq, Structural)]
pub enum ServiceToggle {
    /// Stop the service, then bring the menu up to date at once.
    Stop,
    /// Start it beside, and bring the menu up to date when that is done.
    Start,
}

/// A service that answers is stopped, one that does not is started; elsewhere than on Windows it
/// is only started.
pub fn on_service_toggle(windows: bool, was_up: bool) -> (r: ServiceToggle)
    ensures
        r == (if windows && was_up {
            ServiceToggle::Stop
        } else {
            ServiceToggle::Start
        }),
{
    if windows && was_up {
        ServiceToggle::Stop
    } else {
        ServiceToggle::Start
    }
}

/// What happens to the icon.
#[derive(Debug, Clone, Copy, PartialEq, Eq, Structural)]
pub enum IconEvent {
    PointerEnters,
    LeftButtonUp,
    Other,
}

#[derive(Debug, Clone, Copy, PartialEq, Eq, Structural)]
pub enum IconAction {
    RefreshMenu,
    ToggleWindow,
    Nothing,
}

/// When the menu was refreshed last, in nanoseconds of the clock.
#[derive(Debug, Clone, Copy, PartialEq, Eq, Structural)]
pub struct TrayRefresh {
    pub last: Option<u128>,
}

/// Long enough after the last refresh.
pub open spec fn due(last: Option<u128>, now: u128) -> bool {
    last matches Some(t) ==> now >= t + REFRESH_NANOS
}

impl TrayRefresh {
    pub fn new() -> (r: TrayRefresh)
        ensures
            r.last is None,
    {
        TrayRefresh { last: None }
    }

    /// Whether the pointer refreshes the menu now.
    pub fn tray_menu_enter_refresh_should_run(&mut self, now: u128) -> (r: bool)
        ensures
            r == due(old(self).last, now),
            final(self).last == (if r {
                Some(now)
            } else {
                old(self).last
            }),
    {
        match self.last {
            Some(t) => {
                if now < t || now - t < REFRESH_NANOS {
                    return false;
                }
            },
            None => {},
        }
        self.last = Some(now);
        true
    }

    pub fn on_tray_icon_event(&mut self, event: IconEvent, now: u128) -> (r: IconAction)
        ensures
            match event {
                IconEvent::PointerEnters => if due(old(self).last, now) {
                    r == IconAction::RefreshMenu && final(self).last == Some(now)
                } else {
                    r == IconAction::Nothing && *final(self) == *old(self)
                },
                IconEvent::LeftButtonUp => r == IconAction::ToggleWindow && *final(self) == *old(
                    self,
                ),
                IconEvent::Other => r == IconAction::Nothing && *final(self) == *old(self),
            },
    {
        match event {
            IconEvent::PointerEnters => {
                if self.tray_menu_enter_refresh_should_run(now) {
                    IconAction::RefreshMenu
                } else {
                    IconAction::Nothing
                }
            },
            IconEvent::LeftButtonUp => IconAction::ToggleWindow,
            IconEvent::Other => IconAction::Nothing,
        }
    }
}

/// Two refreshes by the pointer are always at least the set time apart.
pub proof fn law_refreshes_are_apart(first: u128, now: u128)
    ensures
        due(Some(first), now) ==> now - first >= REFRESH_NANOS,
{
}

// ---- colours ------------------------------------------------------------------------------

#[derive(Debug, Clone, Copy, PartialEq, Eq, Structural)]
pub enum Theme {
    Dark,
    Light,
}

pub open spec fn theme_of(mode: Seq<char>) -> Result<Theme, Seq<char>> {
    let m = text::lowercased(text::trimmed(mode));
    if m == "dark"@ {
        Ok(Theme::Dark)
    } else if m == "light"@ {
        Ok(Theme::Light)
    } else {
        Err("Unsupported theme mode '"@ + m + "'."@)
    }
}

fn read_theme(mode: &str) -> (r: Result<Theme, String>)
    ensures
        text::with_text(r) == theme_of(mode@),
{
    let m = text::to_lower(&text::trim(mode));
    if text::same_text(&m, "dark") {
        return Ok(Theme::Dark);
    }
    if text::same_text(&m, "light") {
        return Ok(Theme::Light);
    }
    let mut e = text::copied("Unsupported theme mode '");
    e.push_str(&m);
    e.push_str("'.");
    Err(e)
}

/// A colour: red, green, blue.
pub type Rgb = (u8, u8, u8);

/// A colour as the window manager takes it: red in the lowest byte.
pub open spec fn colorref(c: Rgb) -> int {
    c.0 + 256 * c.1 + 65536 * c.2
}

pub fn css_colorref(c: Rgb) -> (r: u32)
    ensures
        r == colorref(c),
{
    c.0 as u32 + 256 * c.1 as u32 + 65536 * c.2 as u32
}

/// Two colours with the same number are the same.
pub proof fn law_colours_are_told_apart(a: Rgb, b: Rgb)
    ensures
        colorref(a) == colorref(b) <==> a == b,
{
}

/// The text of a colour, without white space around it; nothing where there is none.
pub open spec fn given_color(color: Option<Seq<char>>) -> Option<Seq<char>> {
    match color {
        Some(c) if text::trimmed(c).len() > 0 => Some(text::trimmed(c)),
        _ => None,
    }
}

/// What the windows are set to.
#[derive(Debug)]
pub struct WindowTheme {
    pub theme: Theme,
    pub background: Option<Rgb>,
    pub caption: Option<u32>,
    pub text: Option<u32>,
}

/// The colours in the texts of the page, as the parser of colours reads them without white space
/// around them.
#[derive(Debug)]
pub struct ParsedColors {
    pub background: Result<Rgb, String>,
    pub caption: Option<Rgb>,
    pub text: Option<Rgb>,
}

fn reference(c: Option<Rgb>) -> (r: Option<u32>)
    ensures
        match c {
            Some(c) => r is Some && r->0 == colorref(c),
            None => r is None,
        },
{
    match c {
        Some(c) => Some(css_colorref(c)),
        None => None,
    }
}

pub open spec fn theme_error(
    mode: Seq<char>,
    background: Option<Seq<char>>,
    parsed: Result<Rgb, Seq<char>>,
) -> Option<Seq<char>> {
    match theme_of(mode) {
        Err(e) => Some(e),
        Ok(_) => match (given_color(background), parsed) {
            (Some(c), Err(e)) => Some("Invalid background color '"@ + c + "': "@ + e),
            _ => None,
        },
    }
}

/// What the main window and the settings are set to. A background that is no colour is an error;
/// a colour of the title bar that is none is left out.
pub fn apply_native_window_theme(mode: &str, background: &Option<String>, parsed: &ParsedColors) -> (r:
    Result<WindowTheme, String>)
    ensures
        match r {
            Err(e) => theme_error(
                mode@,
                text::opt_view(*background),
                text::with_text(parsed.background),
            ) == Some(e@),
            Ok(t) => {
                &&& theme_error(
                    mode@,
                    text::opt_view(*background),
                    text::with_text(parsed.background),
                ) is None
                &&& theme_of(mode@) == Ok::<Theme, Seq<char>>(t.theme)
                &&& t.background == (if given_color(text::opt_view(*background)) is Some {
                    Some(parsed.background->Ok_0)
                } else {
                    None
                })
                &&& (t.caption is Some <==> parsed.caption is Some)
                &&& t.caption is Some ==> t.caption->0 == colorref(parsed.caption->0)
                &&& (t.text is Some <==> parsed.text is Some)
                &&& t.text is Some ==> t.text->0 == colorref(parsed.text->0)
            },
        },
{
    let theme = match read_theme(mode) {
        Ok(t) => t,
        Err(e) => {
            return Err(e);
        },
    };
    let given = match background {
        Some(b) => text::trim(b),
        None => String::new(),
    };
    let mut color: Option<Rgb> = None;
    if !given.as_str().is_empty() {
        match &parsed.background {
            Ok(c) => {
                color = Some(*c);
            },
            Err(e) => {
                let mut m = text::copied("Invalid background color '");
                m.push_str(&given);
                m.push_str("': ");
                m.push_str(e);
                return Err(m);
            },
        }
    }
    Ok(
        WindowTheme {
            theme,
            background: color,
            caption: reference(parsed.caption),
            text: reference(parsed.text),
        },
    )
}

/// Of two spellings of an argument the first that is given, else the default.
pub fn resolved_theme_mode(first: &Option<String>, second: &Option<String>) -> (r: String)
    ensures
        r@ == (match (*first, *second) {
            (Some(f), _) => f@,
            (None, Some(s)) => s@,
            (None, None) => "dark"@,
        }),
{
    match first {
        Some(f) => text::copied(f),
        None => match second {
            Some(s) => text::copied(s),
            None => text::copied("dark"),
        },
    }
}

/// Each entry of the tray does what it says.
pub proof fn law_tray_does_what_it_says(up: bool)
    ensures
        menu_of(up)[0] matches TrayItemView::Entry(id, t) && t == "打开搜索"@ && action_of(id)
            == TrayAction::OpenSearch,
        menu_of(up)[1] matches TrayItemView::Entry(id, t) && t == "设置…"@ && action_of(id)
            == TrayAction::OpenSettings,
        menu_of(up)[3] matches TrayItemView::Entry(id, t) && (up ==> t == "停止索引服务"@) && (!up
            ==> t == "启动索引服务"@) && action_of(id) == TrayAction::ToggleService,
        menu_of(up)[5] matches TrayItemView::Entry(id, t) && t == "隐藏窗口"@ && action_of(id)
            == TrayAction::HideWindow,
        menu_of(up)[7] matches TrayItemView::Entry(id, t) && t == "退出 FindX"@ && action_of(id)
            == TrayAction::Quit,
        menu_of(up).len() == 8,
{
    reveal_strlit("findx-search");
    reveal_strlit("findx-settings");
    reveal_strlit("findx-service-toggle");
    reveal_strlit("hide-window");
    reveal_strlit("quit-app");
    assert("findx-search"@.len() == 12 && "findx-settings"@.len() == 14
        && "findx-service-toggle"@.len() == 20 && "hide-window"@.len() == 11 && "quit-app"@.len()
        == 8);
}

/// The themes by their names, in either case and with white space around them.
pub proof fn law_themes(mode: Seq<char>)
    ensures
        text::lowercased(text::trimmed(mode)) == "dark"@ ==> theme_of(mode) == Ok::<
            Theme,
            Seq<char>,
        >(Theme::Dark),
        text::lowercased(text::trimmed(mode)) == "light"@ ==> theme_of(mode) == Ok::<
            Theme,
            Seq<char>,
        >(Theme::Light),
        text::lowercased(text::trimmed(mode)) != "dark"@ && text::lowercased(text::trimmed(mode))
            != "light"@ ==> theme_of(mode) is Err,
{
    reveal_strlit("dark");
    reveal_strlit("light");
    assert("dark"@.len() != "light"@.len());
}

/// The red of a colour is its lowest byte, then green, then blue.
pub proof fn law_colour_bytes(c: Rgb)
    ensures
        colorref(c) % 256 == c.0,
        colorref(c) / 256 % 256 == c.1,
        colorref(c) / 65536 == c.2,
{
}

/// A theme is refused where its name is unknown, or where a background was given, not blank, that
/// is no colour; then the colour and the reason are named.
pub proof fn law_refused_themes(
    mode: Seq<char>,
    c: Seq<char>,
    parsed: Result<Rgb, Seq<char>>,
)
    ensures
        theme_of(mode) matches Err(e) ==> theme_error(mode, Some(c), parsed) == Some(e)
            && theme_error(mode, None, parsed) == Some(e),
        theme_of(mode) is Ok ==> theme_error(mode, None, parsed) is None,
        theme_of(mode) is Ok && parsed is Ok ==> theme_error(mode, Some(c), parsed) is None,
        theme_of(mode) is Ok && text::trimmed(c).len() == 0 ==> theme_error(mode, Some(c), parsed)
            is None,
        theme_of(mode) is Ok && text::trimmed(c).len() > 0 && parsed is Err ==> theme_error(
            mode,
            Some(c),
            parsed,
        ) == Some("Invalid background color '"@ + text::trimmed(c) + "': "@ + parsed->Err_0),
{
}

/// The menu is refreshed where it never was, and again once 400 milliseconds are over.
pub proof fn law_time_of_a_refresh(t: u128, now: u128)
    ensures
        due(None, now),
        due(Some(t), now) <==> now - t >= 400_000_000,
{
}

} // verus!
