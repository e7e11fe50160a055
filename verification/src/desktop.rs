//! The settings of the window program: the global shortcut, what is kept on disk, and how settings
//! of earlier versions are read.
use vstd::prelude::*;
use crate::text;

verus! {

/// The layout of the window: the workspace, or the small window of a shortcut.
#[derive(Debug, Clone, Copy, PartialEq, Eq, Structural)]
pub enum WindowMode {
    Full,
    Quick,
}

impl WindowMode {
    /// The name that the page knows the mode by.
    pub fn as_str(self) -> (r: &'static str)
        ensures
            r@ == (match self {
                WindowMode::Full => "full"@,
                WindowMode::Quick => "quick"@,
            }),
    {
        match self {
            WindowMode::Full => "full",
            WindowMode::Quick => "quick",
        }
    }
}

#[derive(Debug, Clone)]
pub struct DesktopSettings {
    /// Closing the window only hides it.
    pub background_mode_enabled: bool,
    pub shortcut_enabled: bool,
    pub shortcut: String,
    pub remember_window_bounds: bool,
}

pub struct DesktopSettingsView {
    pub background_mode_enabled: bool,
    pub shortcut_enabled: bool,
    pub shortcut: Seq<char>,
    pub remember_window_bounds: bool,
}

impl View for DesktopSettings {
    type V = DesktopSettingsView;

    open spec fn view(&self) -> DesktopSettingsView {
        DesktopSettingsView {
            background_mode_enabled: self.background_mode_enabled,
            shortcut_enabled: self.shortcut_enabled,
            shortcut: self.shortcut@,
            remember_window_bounds: self.remember_window_bounds,
        }
    }
}

pub open spec fn default_settings() -> DesktopSettingsView {
    DesktopSettingsView {
        background_mode_enabled: true,
        shortcut_enabled: true,
        shortcut: "Alt+Shift+S"@,
        remember_window_bounds: true,
    }
}

impl Default for DesktopSettings {
    fn default() -> (r: DesktopSettings)
        ensures
            r@ == default_settings(),
    {
        DesktopSettings {
            background_mode_enabled: true,
            shortcut_enabled: true,
            shortcut: text::copied("Alt+Shift+S"),
            remember_window_bounds: true,
        }
    }
}

// ---- the shortcut -------------------------------------------------------------------------

/// The shortcut of the first version, which the system has for its own menu.
pub open spec fn legacy(s: Seq<char>) -> bool {
    text::same_ignoring_case(s, "Alt+Space"@)
}

/// The shortcut as it is registered. `parsed` is what the parser of shortcuts makes of the text
/// without white space around it: the same shortcut in its usual spelling, or an error.
pub open spec fn normalized(s: Seq<char>, parsed: Result<Seq<char>, Seq<char>>) -> Result<
    Seq<char>,
    Seq<char>,
> {
    if text::trimmed(s).len() == 0 {
        Err("Shortcut cannot be empty."@)
    } else {
        match parsed {
            Err(e) => Err("Invalid shortcut '"@ + text::trimmed(s) + "': "@ + e),
            Ok(p) => if legacy(p) {
                Err("Alt+Space conflicts with the Windows system menu. Choose another shortcut."@)
            } else {
                Ok(p)
            },
        }
    }
}

pub fn normalize_shortcut(shortcut: &str, parsed: &Result<String, String>) -> (r: Result<
    String,
    String,
>)
    ensures
        text::texts_of(r) == normalized(shortcut@, text::texts_of(*parsed)),
{
    let trimmed = text::trim(shortcut);
    if trimmed.as_str().is_empty() {
        return Err(text::copied("Shortcut cannot be empty."));
    }
    match parsed {
        Err(e) => {
            let mut m = text::copied("Invalid shortcut '");
            m.push_str(&trimmed);
            m.push_str("': ");
            m.push_str(e);
            Err(m)
        },
        Ok(p) => {
            if text::equals_ignoring_case(p, "Alt+Space") {
                Err(
                    text::copied(
                        "Alt+Space conflicts with the Windows system menu. Choose another shortcut.",
                    ),
                )
            } else {
                Ok(text::copied(p))
            }
        },
    }
}

/// The shortcut, or the default in place of one that cannot be used.
pub open spec fn usable_shortcut(s: Seq<char>, parsed: Result<Seq<char>, Seq<char>>) -> Seq<char> {
    if legacy(text::trimmed(s)) {
        "Alt+Shift+S"@
    } else {
        match normalized(s, parsed) {
            Ok(p) => p,
            Err(_) => "Alt+Shift+S"@,
        }
    }
}

pub fn sanitized_shortcut_or_default(shortcut: &str, parsed: &Result<String, String>) -> (r: String)
    ensures
        r@ == usable_shortcut(shortcut@, text::texts_of(*parsed)),
{
    let trimmed = text::trim(shortcut);
    if trimmed.as_str().is_empty() || text::equals_ignoring_case(&trimmed, "Alt+Space") {
        return text::copied("Alt+Shift+S");
    }
    match normalize_shortcut(shortcut, parsed) {
        Ok(p) => p,
        Err(_) => text::copied("Alt+Shift+S"),
    }
}

proof fn lemma_default_is_not_legacy()
    ensures
        !legacy("Alt+Shift+S"@),
{
    reveal_strlit("Alt+Shift+S");
    reveal_strlit("Alt+Space");
    assert(text::lowercased("Alt+Shift+S"@).len() != text::lowercased("Alt+Space"@).len());
}

/// Whatever is on disk and whatever the parser says, the shortcut that the system needs for its
/// own menu is never used.
pub proof fn law_system_shortcut_is_kept_free(s: Seq<char>, parsed: Result<Seq<char>, Seq<char>>)
    ensures
        !legacy(usable_shortcut(s, parsed)),
        normalized(s, parsed) matches Ok(p) ==> !legacy(p),
{
    lemma_default_is_not_legacy();
}

// ---- settings on disk ---------------------------------------------------------------------

/// Settings as the first version wrote them by default are replaced by those of today.
pub open spec fn untouched_legacy(s: DesktopSettingsView) -> bool {
    !s.background_mode_enabled && !s.shortcut_enabled && legacy(text::trimmed(s.shortcut))
}

pub open spec fn sanitized(s: DesktopSettingsView, parsed: Result<Seq<char>, Seq<char>>) ->
    DesktopSettingsView {
    if untouched_legacy(s) {
        default_settings()
    } else {
        DesktopSettingsView { shortcut: usable_shortcut(s.shortcut, parsed), ..s }
    }
}

pub fn sanitize_desktop_settings(settings: &DesktopSettings, parsed: &Result<String, String>) -> (r:
    DesktopSettings)
    ensures
        r@ == sanitized(settings@, text::texts_of(*parsed)),
{
    if !settings.background_mode_enabled && !settings.shortcut_enabled
        && text::equals_ignoring_case(&text::trim(&settings.shortcut), "Alt+Space") {
        return DesktopSettings::default();
    }
    DesktopSettings {
        background_mode_enabled: settings.background_mode_enabled,
        shortcut_enabled: settings.shortcut_enabled,
        shortcut: sanitized_shortcut_or_default(&settings.shortcut, parsed),
        remember_window_bounds: settings.remember_window_bounds,
    }
}

/// What is kept on disk. A layout is known by a number.
#[derive(Debug)]
pub struct PersistedDesktopState {
    pub desktop_state_version: u32,
    pub settings: DesktopSettings,
    pub last_full_window_layout: Option<u64>,
    pub last_window_mode: Option<WindowMode>,
}

pub struct PersistedView {
    pub desktop_state_version: u32,
    pub settings: DesktopSettingsView,
    pub last_full_window_layout: Option<u64>,
    pub last_window_mode: Option<WindowMode>,
}

impl View for PersistedDesktopState {
    type V = PersistedView;

    open spec fn view(&self) -> PersistedView {
        PersistedView {
            desktop_state_version: self.desktop_state_version,
            settings: self.settings@,
            last_full_window_layout: self.last_full_window_layout,
            last_window_mode: self.last_window_mode,
        }
    }
}

pub open spec fn fresh_state(settings: DesktopSettingsView) -> PersistedView {
    PersistedView {
        desktop_state_version: 1,
        settings,
        last_full_window_layout: None,
        last_window_mode: None,
    }
}

impl Default for PersistedDesktopState {
    fn default() -> (r: PersistedDesktopState)
        ensures
            r@ == fresh_state(default_settings()),
    {
        PersistedDesktopState {
            desktop_state_version: 1,
            settings: DesktopSettings::default(),
            last_full_window_layout: None,
            last_window_mode: None,
        }
    }
}

/// The state that is used: a layout of an older file, whose sizes have another meaning, and one
/// that is no layout (`layout_valid` says so) are dropped.
pub open spec fn sanitized_state(
    s: PersistedView,
    layout_valid: bool,
    parsed: Result<Seq<char>, Seq<char>>,
) -> PersistedView {
    PersistedView {
        desktop_state_version: if s.desktop_state_version < 1 {
            1
        } else {
            s.desktop_state_version
        },
        settings: sanitized(s.settings, parsed),
        last_full_window_layout: if s.desktop_state_version < 1 || !layout_valid {
            None
        } else {
            s.last_full_window_layout
        },
        last_window_mode: s.last_window_mode,
    }
}

pub fn sanitize_persisted_desktop_state(
    s: &PersistedDesktopState,
    layout_valid: bool,
    parsed: &Result<String, String>,
) -> (r: PersistedDesktopState)
    ensures
        r@ == sanitized_state(s@, layout_valid, text::texts_of(*parsed)),
{
    let old = s.desktop_state_version < 1;
    PersistedDesktopState {
        desktop_state_version: if old {
            1
        } else {
            s.desktop_state_version
        },
        settings: sanitize_desktop_settings(&s.settings, parsed),
        last_full_window_layout: if old || !layout_valid {
            None
        } else {
            s.last_full_window_layout
        },
        last_window_mode: s.last_window_mode,
    }
}

/// What the file holds: a state, the bare settings of an early version, or nothing that can be
/// read. `parsed` is the parser's word on the shortcut in it.
#[derive(Debug)]
pub enum LoadedFile {
    State(PersistedDesktopState, bool),
    Settings(DesktopSettings),
    Nothing,
}

pub open spec fn loaded(f: LoadedFile, parsed: Result<Seq<char>, Seq<char>>) -> PersistedView {
    match f {
        LoadedFile::State(s, layout_valid) => sanitized_state(s@, layout_valid, parsed),
        LoadedFile::Settings(s) => fresh_state(sanitized(s@, parsed)),
        LoadedFile::Nothing => fresh_state(default_settings()),
    }
}

pub fn load_desktop_state(f: &LoadedFile, parsed: &Result<String, String>) -> (r:
    PersistedDesktopState)
    ensures
        r@ == loaded(*f, text::texts_of(*parsed)),
{
    match f {
        LoadedFile::State(s, layout_valid) => sanitize_persisted_desktop_state(
            s,
            *layout_valid,
            parsed,
        ),
        LoadedFile::Settings(s) => PersistedDesktopState {
            desktop_state_version: 1,
            settings: sanitize_desktop_settings(s, parsed),
            last_full_window_layout: None,
            last_window_mode: None,
        },
        LoadedFile::Nothing => PersistedDesktopState::default(),
    }
}

/// Whatever the file holds, what is used has a current version and a shortcut that can be used.
pub proof fn law_loaded_state_is_usable(f: LoadedFile, parsed: Result<Seq<char>, Seq<char>>)
    ensures
        loaded(f, parsed).desktop_state_version >= 1,
        !legacy(loaded(f, parsed).settings.shortcut),
{
    lemma_default_is_not_legacy();
    match f {
        LoadedFile::State(s, _) => {
            law_system_shortcut_is_kept_free(s.settings@.shortcut, parsed);
        },
        LoadedFile::Settings(s) => {
            law_system_shortcut_is_kept_free(s@.shortcut, parsed);
        },
        LoadedFile::Nothing => {},
    }
}

/// Reading a state again changes nothing, where the parser reads its own spelling as it is.
pub proof fn law_sanitizing_settles(s: PersistedView, layout_valid: bool, parsed: Result<Seq<char>, Seq<char>>)
    requires
        s.settings.shortcut == text::trimmed(s.settings.shortcut),
        s.settings.shortcut.len() > 0,
        parsed == Ok::<Seq<char>, Seq<char>>(s.settings.shortcut),
        s.desktop_state_version >= 1,
        layout_valid,
        !legacy(s.settings.shortcut),
    ensures
        sanitized_state(s, layout_valid, parsed) == s,
{
}

// ---- registering the shortcut -------------------------------------------------------------

/// What is done with the system, in this order, and which shortcut is active afterwards.
#[derive(Debug)]
pub struct ShortcutPlan {
    pub unregister: Option<String>,
    pub register: Option<String>,
    pub active: Option<String>,
}

pub struct ShortcutPlanView {
    pub unregister: Option<Seq<char>>,
    pub register: Option<Seq<char>>,
    pub active: Option<Seq<char>>,
}

impl View for ShortcutPlan {
    type V = ShortcutPlanView;

    open spec fn view(&self) -> ShortcutPlanView {
        ShortcutPlanView {
            unregister: text::opt_view(self.unregister),
            register: text::opt_view(self.register),
            active: text::opt_view(self.active),
        }
    }
}

/// The plan for a shortcut in its usual spelling. `active_registered` says that the system knows
/// the shortcut that is active, `new_registered` that it knows the new one.
pub open spec fn shortcut_plan(
    shortcut: Seq<char>,
    enabled: bool,
    active: Option<Seq<char>>,
    active_registered: bool,
    new_registered: bool,
) -> ShortcutPlanView {
    let same = active matches Some(a) && text::same_ignoring_case(a, shortcut);
    let drop_active = if active_registered {
        active
    } else {
        None
    };
    if !enabled {
        ShortcutPlanView { unregister: drop_active, register: None, active: None }
    } else if same && new_registered {
        ShortcutPlanView { unregister: None, register: None, active }
    } else {
        ShortcutPlanView {
            unregister: if same {
                None
            } else {
                drop_active
            },
            register: if new_registered {
                None
            } else {
                Some(shortcut)
            },
            active: Some(shortcut),
        }
    }
}

pub fn register_app_shortcut(
    shortcut: &str,
    enabled: bool,
    active: &Option<String>,
    active_registered: bool,
    new_registered: bool,
) -> (r: ShortcutPlan)
    ensures
        r@ == shortcut_plan(
            shortcut@,
            enabled,
            text::opt_view(*active),
            active_registered,
            new_registered,
        ),
{
    let same = match active {
        Some(a) => text::equals_ignoring_case(a, shortcut),
        None => false,
    };
    let drop_active = if active_registered {
        text::copied_opt(active)
    } else {
        None
    };
    if !enabled {
        return ShortcutPlan { unregister: drop_active, register: None, active: None };
    }
    if same && new_registered {
        return ShortcutPlan { unregister: None, register: None, active: text::copied_opt(active) };
    }
    ShortcutPlan {
        unregister: if same {
            None
        } else {
            drop_active
        },
        register: if new_registered {
            None
        } else {
            Some(text::copied(shortcut))
        },
        active: Some(text::copied(shortcut)),
    }
}

/// A shortcut that is switched on is active afterwards, up to the size of its letters; one that
/// is switched off leaves none.
pub proof fn law_active_shortcut(
    shortcut: Seq<char>,
    enabled: bool,
    active: Option<Seq<char>>,
    active_registered: bool,
    new_registered: bool,
)
    ensures
        ({
            let p = shortcut_plan(shortcut, enabled, active, active_registered, new_registered);
            if enabled {
                &&& p.active matches Some(a) && text::same_ignoring_case(a, shortcut)
                &&& new_registered || p.register == Some(shortcut)
            } else {
                p.active is None && p.register is None
            }
        }),
{
}

/// The settings that a page asks for; what it leaves open is as by default.
pub open spec fn asked_settings(
    background_mode: Option<bool>,
    shortcut_enabled: Option<bool>,
    remember_bounds: Option<bool>,
    shortcut: Seq<char>,
) -> DesktopSettingsView {
    DesktopSettingsView {
        background_mode_enabled: background_mode != Some(false),
        shortcut_enabled: shortcut_enabled != Some(false),
        shortcut,
        remember_window_bounds: remember_bounds != Some(false),
    }
}

fn unless_false(b: Option<bool>) -> (r: bool)
    ensures
        r == (b != Some(false)),
{
    match b {
        Some(v) => v,
        None => true,
    }
}

pub open spec fn settings_result(r: Result<DesktopSettings, String>) -> Result<
    DesktopSettingsView,
    Seq<char>,
> {
    match r {
        Ok(s) => Ok(s@),
        Err(e) => Err(e@),
    }
}

/// The settings that are used from now on, or why the shortcut is refused.
pub fn update_desktop_settings(
    background_mode: Option<bool>,
    shortcut_enabled: Option<bool>,
    remember_bounds: Option<bool>,
    shortcut: &str,
    parsed: &Result<String, String>,
) -> (r: Result<DesktopSettings, String>)
    ensures
        settings_result(r) == (match normalized(shortcut@, text::texts_of(*parsed)) {
            Ok(p) => Ok::<DesktopSettingsView, Seq<char>>(
                asked_settings(background_mode, shortcut_enabled, remember_bounds, p),
            ),
            Err(e) => Err::<DesktopSettingsView, Seq<char>>(e),
        }),
{
    match normalize_shortcut(shortcut, parsed) {
        Ok(p) => Ok(
            DesktopSettings {
                background_mode_enabled: unless_false(background_mode),
                shortcut_enabled: unless_false(shortcut_enabled),
                shortcut: p,
                remember_window_bounds: unless_false(remember_bounds),
            },
        ),
        Err(e) => Err(e),
    }
}

/// Only an explicit no switches a setting off, each its own.
pub proof fn law_asked_settings(
    background: Option<bool>,
    shortcut_on: Option<bool>,
    bounds: Option<bool>,
    shortcut: Seq<char>,
)
    ensures
        ({
            let s = asked_settings(background, shortcut_on, bounds, shortcut);
            &&& !s.background_mode_enabled <==> background == Some(false)
            &&& !s.shortcut_enabled <==> shortcut_on == Some(false)
            &&& !s.remember_window_bounds <==> bounds == Some(false)
            &&& s.shortcut == shortcut
        }),
{
}

/// Cleaning up a stored state keeps its switches and its mode, and a layout that is valid and not of
/// the first version; a shortcut that can be used is kept as the system spells it.
pub proof fn law_stored_state_is_kept(
    s: PersistedView,
    layout_valid: bool,
    parsed: Result<Seq<char>, Seq<char>>,
)
    ensures
        ({
            let t = sanitized_state(s, layout_valid, parsed);
            &&& t.last_window_mode == s.last_window_mode
            &&& s.desktop_state_version >= 1 ==> t.desktop_state_version == s.desktop_state_version
            &&& s.desktop_state_version >= 1 && layout_valid ==> t.last_full_window_layout
                == s.last_full_window_layout
            &&& !layout_valid || s.desktop_state_version < 1 ==> t.last_full_window_layout is None
            &&& !untouched_legacy(s.settings) ==> t.settings.background_mode_enabled
                == s.settings.background_mode_enabled && t.settings.shortcut_enabled
                == s.settings.shortcut_enabled && t.settings.remember_window_bounds
                == s.settings.remember_window_bounds
            &&& !untouched_legacy(s.settings) && text::trimmed(s.settings.shortcut).len() > 0 && !legacy(
                text::trimmed(s.settings.shortcut),
            ) && (parsed matches Ok(p) && !legacy(p)) ==> t.settings.shortcut == parsed->Ok_0
        }),
{
}

/// What a program without stored settings starts with.
pub proof fn law_default_desktop()
    ensures
        default_settings().background_mode_enabled && default_settings().shortcut_enabled
            && default_settings().remember_window_bounds,
        default_settings().shortcut == "Alt+Shift+S"@,
{
}

/// The shortcut that once was the default is known in any mix of small and capital letters.
pub proof fn law_former_shortcut(s: Seq<char>)
    ensures
        legacy(s) <==> text::lowercased(s) == text::lowercased("Alt+Space"@),
{
}

} // verus!
