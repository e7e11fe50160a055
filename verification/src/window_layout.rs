//! Showing, hiding and placing the main window, and when its bounds are saved.
use vstd::prelude::*;
use crate::desktop::{DesktopSettingsView, DesktopSettings, PersistedDesktopState, PersistedView, WindowMode};
use crate::text;

verus! {

/// The least width and height that count as visible, in pixels.
pub const MIN_VISIBLE: i32 = 100;

/// A window or a monitor on the desktop.
#[derive(Debug, Clone, Copy, PartialEq, Eq, Structural)]
pub struct ScreenRect {
    pub x: i32,
    pub y: i32,
    pub width: u32,
    pub height: u32,
}

impl ScreenRect {
    /// The far edges are coordinates too.
    pub open spec fn wf(&self) -> bool {
        self.x + self.width <= i32::MAX && self.y + self.height <= i32::MAX && self.width
            <= i32::MAX && self.height <= i32::MAX
    }
}

pub open spec fn smaller(a: int, b: int) -> int {
    if a < b {
        a
    } else {
        b
    }
}

pub open spec fn larger(a: int, b: int) -> int {
    if a < b {
        b
    } else {
        a
    }
}

/// How far two ranges overlap; not positive where they do not.
pub open spec fn overlap(a: int, a_len: int, b: int, b_len: int) -> int {
    smaller(a + a_len, b + b_len) - larger(a, b)
}

/// Enough of the window is on the monitor.
pub open spec fn visible_on(w: ScreenRect, m: ScreenRect) -> bool {
    overlap(w.x as int, w.width as int, m.x as int, m.width as int) >= MIN_VISIBLE && overlap(
        w.y as int,
        w.height as int,
        m.y as int,
        m.height as int,
    ) >= MIN_VISIBLE
}

/// Enough of the window is on one of the monitors.
pub open spec fn visible_on_any(w: ScreenRect, monitors: Seq<ScreenRect>) -> bool {
    exists|i: int| 0 <= i < monitors.len() && visible_on(w, #[trigger] monitors[i])
}

fn overlap_of(a: i32, a_len: u32, b: i32, b_len: u32) -> (r: i64)
    ensures
        r == overlap(a as int, a_len as int, b as int, b_len as int),
{
    let a_end: i64 = a as i64 + a_len as i64;
    let b_end: i64 = b as i64 + b_len as i64;
    let end: i64 = if a_end < b_end {
        a_end
    } else {
        b_end
    };
    let start: i64 = if a < b {
        b as i64
    } else {
        a as i64
    };
    end - start
}

/// Whether enough of the window is on one of the monitors; nothing is known without the window's
/// place (`None`).
pub fn window_visible_on_any_monitor(window: Option<ScreenRect>, monitors: &Vec<ScreenRect>) -> (r:
    bool)
    requires
        window matches Some(w) ==> w.wf(),
        forall|i: int| 0 <= i < monitors@.len() ==> (#[trigger] monitors@[i]).wf(),
    ensures
        r == (window matches Some(w) && visible_on_any(w, monitors@)),
{
    let w = match window {
        Some(w) => w,
        None => {
            return false;
        },
    };
    let mut i: usize = 0;
    while i < monitors.len()
        invariant
            i <= monitors.len(),
            window == Some(w),
            forall|k: int| 0 <= k < i ==> !visible_on(w, #[trigger] monitors@[k]),
        decreases monitors.len() - i,
    {
        let m = monitors[i];
        if overlap_of(w.x, w.width, m.x, m.width) >= MIN_VISIBLE as i64 && overlap_of(
            w.y,
            w.height,
            m.y,
            m.height,
        ) >= MIN_VISIBLE as i64 {
            assert(visible_on(w, monitors@[i as int]));
            return true;
        }
        i += 1;
    }
    false
}

/// A window that lies wholly on a monitor, and is not tiny, is visible.
pub proof fn law_inside_is_visible(w: ScreenRect, m: ScreenRect)
    requires
        w.wf(),
        m.wf(),
        m.x <= w.x,
        m.y <= w.y,
        w.x + w.width <= m.x + m.width,
        w.y + w.height <= m.y + m.height,
        w.width >= MIN_VISIBLE,
        w.height >= MIN_VISIBLE,
    ensures
        visible_on(w, m),
{
}

// ---- the state ----------------------------------------------------------------------------

/// The state of the window. A layout is known by a number.
#[derive(Debug)]
pub struct DesktopRuntimeState {
    pub window_mode: WindowMode,
    pub settings: DesktopSettings,
    pub layout: Option<u64>,
    /// The bounds are saved when the window goes away.
    pub save_enabled: bool,
    /// The workspace gets its place back after the small window.
    pub pending_full_restore: bool,
    pub quitting: bool,
}

/// What is done with the window.
#[derive(Debug, Clone, Copy, PartialEq, Eq, Structural)]
pub enum WindowAction {
    /// Remember where the window is.
    CaptureLayout,
    /// Save the bounds with those of the system.
    SaveBounds,
    /// Write the state to disk, with the mode that the window has at this point.
    PersistState(WindowMode),
    UnloadPreview,
    Hide,
    Unminimize,
    /// Tell the page the mode.
    EmitMode(WindowMode),
    /// The window gets the place that `apply_main_window_layout` gives.
    ApplyLayout(WindowMode),
    /// The window gets the default place of the mode, whatever is remembered.
    ApplyDefault(WindowMode),
    /// The window stays below others where it is.
    NotOnTop,
    Show,
    Focus,
    /// Give memory back to the system.
    TrimMemory,
}

/// Where the layout comes from.
#[derive(Debug, Clone, Copy, PartialEq, Eq, Structural)]
pub enum LayoutSource {
    /// The layout of the workspace before the small window.
    Live(u64),
    Saved(u64),
    /// The bounds that the system saved.
    System,
    Default(WindowMode),
}

/// The bounds are saved only for the workspace, and only where they are to be remembered.
pub open spec fn saves(s: DesktopRuntimeState) -> bool {
    s.settings.remember_window_bounds && s.window_mode == WindowMode::Full
}

pub open spec fn source_of(
    s: DesktopRuntimeState,
    mode: WindowMode,
    last_mode: Option<WindowMode>,
) -> LayoutSource {
    if mode == WindowMode::Quick {
        LayoutSource::Default(mode)
    } else {
        match s.layout {
            Some(l) if s.pending_full_restore => LayoutSource::Live(l),
            Some(l) if s.settings.remember_window_bounds => LayoutSource::Saved(l),
            None if s.settings.remember_window_bounds && last_mode != Some(WindowMode::Quick) =>
            LayoutSource::System,
            _ => LayoutSource::Default(mode),
        }
    }
}

/// Whether the bounds of the system stay: where they could be set, are visible, and are not those
/// of the small window in a file that does not tell (`quick_like`).
pub fn keep_system_bounds(
    restored: bool,
    visible: bool,
    last_mode: Option<WindowMode>,
    quick_like: bool,
) -> (r: bool)
    ensures
        r == (restored && visible && !(last_mode is None && quick_like)),
{
    restored && visible && !(last_mode.is_none() && quick_like)
}

/// The state once it is written: outside the small window the bounds are saved where they are to
/// be remembered; the small window leaves saving off.
pub open spec fn persisted(s: DesktopRuntimeState) -> DesktopRuntimeState {
    DesktopRuntimeState {
        save_enabled: if s.window_mode == WindowMode::Quick {
            false
        } else {
            saves(s) || s.save_enabled
        },
        ..s
    }
}

/// The state once the window is hidden.
pub open spec fn hidden(s: DesktopRuntimeState) -> DesktopRuntimeState {
    DesktopRuntimeState {
        pending_full_restore: s.pending_full_restore && s.window_mode == WindowMode::Quick,
        ..persisted(s)
    }
}

/// The state once the window is up in a mode, with the layout that was captured on the way to
/// the small window.
pub open spec fn shown_in(s: DesktopRuntimeState, mode: WindowMode) -> DesktopRuntimeState {
    DesktopRuntimeState {
        window_mode: mode,
        save_enabled: false,
        pending_full_restore: s.pending_full_restore || (s.window_mode == WindowMode::Full && mode
            == WindowMode::Quick),
        ..s
    }
}

pub open spec fn if_then(b: bool, a: WindowAction) -> Seq<WindowAction> {
    if b {
        seq![a]
    } else {
        Seq::empty()
    }
}

fn push_action(v: &mut Vec<WindowAction>, b: bool, a: WindowAction)
    ensures
        final(v)@ == old(v)@ + if_then(b, a),
{
    if b {
        v.push(a);
    }
    assert(v@ =~= old(v)@ + if_then(b, a));
}

/// What is done before the window goes away: outside the small window the place is remembered
/// and saved where it is to be; the state is written in any case.
pub open spec fn persist_actions(s: DesktopRuntimeState) -> Seq<WindowAction> {
    if_then(saves(s), WindowAction::CaptureLayout) + if_then(saves(s), WindowAction::SaveBounds)
        + seq![WindowAction::PersistState(s.window_mode)]
}

/// The window comes up in a mode. From the workspace to the small window its place is
/// remembered first; a minimized window gets its place twice, since the first time is lost.
pub open spec fn show_actions(
    s: DesktopRuntimeState,
    mode: WindowMode,
    visible: bool,
    minimized: bool,
) -> Seq<WindowAction> {
    let leaving = s.window_mode == WindowMode::Full && mode == WindowMode::Quick;
    let first = if leaving {
        seq![WindowAction::CaptureLayout] + persist_actions(s)
    } else {
        Seq::empty()
    };
    first + if_then(visible && !minimized, WindowAction::Hide) + if_then(
        minimized,
        WindowAction::Unminimize,
    ) + seq![
        WindowAction::EmitMode(mode),
        WindowAction::ApplyLayout(mode),
        WindowAction::NotOnTop,
        WindowAction::Show,
    ] + if_then(minimized, WindowAction::ApplyLayout(mode)) + seq![WindowAction::Focus]
}

/// What is done to give the workspace its default place.
pub open spec fn reset_actions(s: DesktopRuntimeState) -> Seq<WindowAction> {
    let full = s.window_mode == WindowMode::Full;
    if_then(full, WindowAction::ApplyDefault(WindowMode::Full)) + if_then(
        full,
        WindowAction::CaptureLayout,
    ) + if_then(saves(s), WindowAction::SaveBounds) + seq![
        WindowAction::PersistState(s.window_mode),
    ]
}

impl DesktopRuntimeState {
    pub fn new() -> (r: DesktopRuntimeState)
        ensures
            r.window_mode == WindowMode::Full,
            r.settings@ == crate::desktop::default_settings(),
            r.layout is None,
            r.save_enabled,
            !r.pending_full_restore,
            !r.quitting,
    {
        DesktopRuntimeState {
            window_mode: WindowMode::Full,
            settings: DesktopSettings::default(),
            layout: None,
            save_enabled: true,
            pending_full_restore: false,
            quitting: false,
        }
    }

    /// The program has started: it goes on with what was stored. `registered` is the spelling under
    /// which the shortcut was registered; where that failed, the stored one stays.
    pub fn setup(&mut self, loaded: PersistedDesktopState, registered: Result<String, String>) -> (r:
        Vec<WindowAction>)
        ensures
            r@ == seq![
                WindowAction::ApplyLayout(WindowMode::Full),
                WindowAction::Show,
                WindowAction::Focus,
                WindowAction::CaptureLayout,
                WindowAction::PersistState(WindowMode::Full),
                WindowAction::EmitMode(WindowMode::Full),
            ],
            final(self).window_mode == WindowMode::Full,
            final(self).layout == loaded.last_full_window_layout,
            final(self).settings@ == (DesktopSettingsView {
                shortcut: match registered {
                    Ok(s) => s@,
                    Err(_) => loaded.settings.shortcut@,
                },
                ..loaded.settings@
            }),
            final(self).save_enabled == loaded.settings.remember_window_bounds,
            final(self).pending_full_restore == old(self).pending_full_restore,
            final(self).quitting == old(self).quitting,
    {
        self.layout = loaded.last_full_window_layout;
        self.settings = loaded.settings;
        if let Ok(s) = registered {
            self.settings.shortcut = s;
        }
        self.window_mode = WindowMode::Full;
        self.sync_window_state_save_behavior();
        let mut v: Vec<WindowAction> = Vec::new();
        v.push(WindowAction::ApplyLayout(WindowMode::Full));
        v.push(WindowAction::Show);
        v.push(WindowAction::Focus);
        v.push(WindowAction::CaptureLayout);
        v.push(WindowAction::PersistState(WindowMode::Full));
        v.push(WindowAction::EmitMode(WindowMode::Full));
        v
    }

    /// Whether the bounds are saved follows the mode and the settings.
    pub fn sync_window_state_save_behavior(&mut self)
        ensures
            *final(self) == (DesktopRuntimeState { save_enabled: saves(*old(self)), ..*old(self) }),
    {
        self.save_enabled = self.settings.remember_window_bounds && self.window_mode
            == WindowMode::Full;
    }

    /// The window's place was remembered as this layout.
    pub fn captured(&mut self, layout: u64)
        ensures
            *final(self) == (DesktopRuntimeState { layout: Some(layout), ..*old(self) }),
    {
        self.layout = Some(layout);
    }

    /// What is written to disk for a window in the given mode.
    pub fn persist_desktop_state(&self, mode: WindowMode) -> (r: PersistedDesktopState)
        ensures
            r@ == (PersistedView {
                desktop_state_version: 1,
                settings: self.settings@,
                last_full_window_layout: self.layout,
                last_window_mode: Some(mode),
            }),
    {
        PersistedDesktopState {
            desktop_state_version: 1,
            settings: DesktopSettings {
                background_mode_enabled: self.settings.background_mode_enabled,
                shortcut_enabled: self.settings.shortcut_enabled,
                shortcut: text::copied(&self.settings.shortcut),
                remember_window_bounds: self.settings.remember_window_bounds,
            },
            last_full_window_layout: self.layout,
            last_window_mode: Some(mode),
        }
    }

    /// Before the window goes away. The small window never touches what is known of the
    /// workspace.
    pub fn persist_full_window_state_snapshot(&mut self) -> (r: Vec<WindowAction>)
        ensures
            r@ == persist_actions(*old(self)),
            *final(self) == persisted(*old(self)),
    {
        let mut v: Vec<WindowAction> = Vec::new();
        let save = self.settings.remember_window_bounds && self.window_mode == WindowMode::Full;
        if self.window_mode == WindowMode::Quick {
            self.save_enabled = false;
        } else if save {
            self.save_enabled = true;
        }
        push_action(&mut v, save, WindowAction::CaptureLayout);
        push_action(&mut v, save, WindowAction::SaveBounds);
        push_action(&mut v, true, WindowAction::PersistState(self.window_mode));
        assert(v@ =~= persist_actions(*old(self)));
        v
    }

    /// Where the layout of the window comes from; what is said to be restored from the small
    /// window, but is not there, is forgotten.
    pub fn apply_main_window_layout(&mut self, mode: WindowMode, last_mode: Option<WindowMode>) -> (r:
        LayoutSource)
        ensures
            r == source_of(*old(self), mode, last_mode),
            *final(self) == (DesktopRuntimeState {
                pending_full_restore: old(self).pending_full_restore && !(mode == WindowMode::Full
                    && old(self).layout is None),
                ..*old(self)
            }),
    {
        if mode == WindowMode::Quick {
            return LayoutSource::Default(mode);
        }
        match self.layout {
            Some(l) => {
                if self.pending_full_restore {
                    return LayoutSource::Live(l);
                }
                if self.settings.remember_window_bounds {
                    return LayoutSource::Saved(l);
                }
                LayoutSource::Default(mode)
            },
            None => {
                self.pending_full_restore = false;
                let last_quick = match last_mode {
                    Some(m) => m == WindowMode::Quick,
                    None => false,
                };
                if self.settings.remember_window_bounds && !last_quick {
                    return LayoutSource::System;
                }
                LayoutSource::Default(mode)
            },
        }
    }

    /// The layout of the workspace is back.
    pub fn live_layout_restored(&mut self)
        ensures
            *final(self) == (DesktopRuntimeState { pending_full_restore: false, ..*old(self) }),
    {
        self.pending_full_restore = false;
    }

    /// The window comes up in a mode. Whether the bounds are saved is settled by
    /// `sync_window_state_save_behavior` when it is up.
    pub fn show_window_in_mode(&mut self, mode: WindowMode, visible: bool, minimized: bool) -> (r:
        Vec<WindowAction>)
        ensures
            r@ == show_actions(*old(self), mode, visible, minimized),
            *final(self) == shown_in(*old(self), mode),
    {
        let mut v: Vec<WindowAction> = Vec::new();
        if self.window_mode == WindowMode::Full && mode == WindowMode::Quick {
            v.push(WindowAction::CaptureLayout);
            self.pending_full_restore = true;
            let mut more = self.persist_full_window_state_snapshot();
            let ghost had = v@;
            let ghost next = more@;
            v.append(&mut more);
            assert(v@ =~= had + next);
            assert(persist_actions(*old(self)) =~= next);
        }
        let ghost first = v@;
        self.window_mode = mode;
        self.save_enabled = false;
        push_action(&mut v, visible && !minimized, WindowAction::Hide);
        push_action(&mut v, minimized, WindowAction::Unminimize);
        push_action(&mut v, true, WindowAction::EmitMode(mode));
        push_action(&mut v, true, WindowAction::ApplyLayout(mode));
        push_action(&mut v, true, WindowAction::NotOnTop);
        push_action(&mut v, true, WindowAction::Show);
        push_action(&mut v, minimized, WindowAction::ApplyLayout(mode));
        push_action(&mut v, true, WindowAction::Focus);
        assert(v@ =~= show_actions(*old(self), mode, visible, minimized));
        v
    }

    /// The window comes up as it was.
    pub fn show_main_window(&self, minimized: bool) -> (r: Vec<WindowAction>)
        ensures
            r@ == seq![WindowAction::ApplyLayout(self.window_mode)] + if_then(
                minimized,
                WindowAction::Unminimize,
            ) + seq![WindowAction::NotOnTop, WindowAction::Show, WindowAction::Focus],
    {
        let mut v: Vec<WindowAction> = Vec::new();
        push_action(&mut v, true, WindowAction::ApplyLayout(self.window_mode));
        push_action(&mut v, minimized, WindowAction::Unminimize);
        push_action(&mut v, true, WindowAction::NotOnTop);
        push_action(&mut v, true, WindowAction::Show);
        push_action(&mut v, true, WindowAction::Focus);
        assert(v@ =~= seq![WindowAction::ApplyLayout(self.window_mode)] + if_then(
            minimized,
            WindowAction::Unminimize,
        ) + seq![WindowAction::NotOnTop, WindowAction::Show, WindowAction::Focus]);
        v
    }

    /// The window goes away; the preview, a window of its own, goes first.
    pub fn hide_main_window(&mut self) -> (r: Vec<WindowAction>)
        ensures
            r@ == hide_actions(*old(self)),
            *final(self) == hidden(*old(self)),
    {
        let mut v: Vec<WindowAction> = Vec::new();
        v.push(WindowAction::UnloadPreview);
        let mut more = self.persist_full_window_state_snapshot();
        let ghost next = more@;
        v.append(&mut more);
        if self.window_mode == WindowMode::Full {
            self.pending_full_restore = false;
        }
        v.push(WindowAction::Hide);
        v.push(WindowAction::TrimMemory);
        assert(v@ =~= hide_actions(*old(self)));
        v
    }

    /// The window that is seen goes away; one that is not comes up.
    pub fn toggle_main_window(&mut self, visible: bool, minimized: bool) -> (r: Vec<WindowAction>)
        ensures
            visible && !minimized ==> *final(self) == hidden(*old(self)) && r@ == hide_actions(
                *old(self),
            ),
            !(visible && !minimized) ==> *final(self) == *old(self) && r@ == seq![
                WindowAction::ApplyLayout(old(self).window_mode),
            ] + if_then(minimized, WindowAction::Unminimize) + seq![
                WindowAction::NotOnTop,
                WindowAction::Show,
                WindowAction::Focus,
            ],
    {
        if visible && !minimized {
            self.hide_main_window()
        } else {
            self.show_main_window(minimized)
        }
    }

    /// The workspace gets its default place, which is then remembered; the small window is left
    /// alone.
    pub fn reset_window_layout(&mut self) -> (r: Vec<WindowAction>)
        ensures
            r@ == reset_actions(*old(self)),
            *final(self) == (DesktopRuntimeState {
                save_enabled: saves(*old(self)) || old(self).save_enabled,
                ..*old(self)
            }),
    {
        let full = self.window_mode == WindowMode::Full;
        let save = full && self.settings.remember_window_bounds;
        let mut v: Vec<WindowAction> = Vec::new();
        push_action(&mut v, full, WindowAction::ApplyDefault(WindowMode::Full));
        push_action(&mut v, full, WindowAction::CaptureLayout);
        push_action(&mut v, save, WindowAction::SaveBounds);
        push_action(&mut v, true, WindowAction::PersistState(self.window_mode));
        if save {
            self.sync_window_state_save_behavior();
        }
        assert(v@ =~= reset_actions(*old(self)));
        v
    }

    /// New settings hold from now on: whether the bounds are saved follows them, and they are
    /// written, with the place of the workspace where it is to be remembered.
    pub fn apply_desktop_settings(&mut self, settings: DesktopSettings) -> (r: Vec<WindowAction>)
        ensures
            ({
                let with = DesktopRuntimeState { settings, ..*old(self) };
                &&& *final(self) == (DesktopRuntimeState { save_enabled: saves(with), ..with })
                &&& r@ == persist_actions(with)
            }),
    {
        self.settings = settings;
        self.sync_window_state_save_behavior();
        if self.settings.remember_window_bounds && self.window_mode == WindowMode::Full {
            return self.persist_full_window_state_snapshot();
        }
        let mut v: Vec<WindowAction> = Vec::new();
        v.push(WindowAction::PersistState(self.window_mode));
        assert(v@ =~= persist_actions(*self));
        v
    }

    /// The window is asked to close.
    pub fn handle_window_event(&mut self, label: &str) -> (r: CloseReply)
        ensures
            match r {
                CloseReply::Ignore => label@ != "settings"@ && label@ != "main"@ && *final(self)
                    == *old(self),
                CloseReply::HideSettings => label@ == "settings"@ && *final(self) == *old(self),
                CloseReply::HideMain(v) => label@ == "main"@ && !old(self).quitting && old(
                    self,
                ).settings.background_mode_enabled && v@ == hide_actions(*old(self)) && *final(self)
                    == hidden(*old(self)),
                CloseReply::Close(v) => label@ == "main"@ && (old(self).quitting || !old(
                    self,
                ).settings.background_mode_enabled) && v@ == seq![WindowAction::UnloadPreview]
                    + persist_actions(*old(self)) && *final(self) == persisted(*old(self)),
            },
    {
        if text::same_text(label, "settings") {
            proof {
                reveal_strlit("settings");
                reveal_strlit("main");
                assert("settings"@.len() != "main"@.len());
            }
            return CloseReply::HideSettings;
        }
        if !text::same_text(label, "main") {
            return CloseReply::Ignore;
        }
        if !self.quitting && self.settings.background_mode_enabled {
            return CloseReply::HideMain(self.hide_main_window());
        }
        let mut v: Vec<WindowAction> = Vec::new();
        v.push(WindowAction::UnloadPreview);
        let mut more = self.persist_full_window_state_snapshot();
        v.append(&mut more);
        assert(v@ =~= seq![WindowAction::UnloadPreview] + persist_actions(*old(self)));
        CloseReply::Close(v)
    }

    /// The program ends: the layout is kept, and closing is no longer hiding.
    pub fn quit_background_app(&mut self) -> (r: Vec<WindowAction>)
        ensures
            r@ == persist_actions(*old(self)),
            *final(self) == (DesktopRuntimeState { quitting: true, ..persisted(*old(self)) }),
    {
        let v = self.persist_full_window_state_snapshot();
        self.quitting = true;
        v
    }
}

pub open spec fn hide_actions(s: DesktopRuntimeState) -> Seq<WindowAction> {
    seq![WindowAction::UnloadPreview] + persist_actions(s) + seq![
        WindowAction::Hide,
        WindowAction::TrimMemory,
    ]
}

/// What closing a window does.
#[derive(Debug)]
pub enum CloseReply {
    /// Not a window of this program.
    Ignore,
    /// The settings are hidden, so that they can be shown again.
    HideSettings,
    /// The main window is hidden.
    HideMain(Vec<WindowAction>),
    /// The window closes after this.
    Close(Vec<WindowAction>),
}

/// A build of the index will start by itself when the program starts.
pub fn build_pending_at_start(auto_start_service: bool, index_exists: bool) -> (r: bool)
    ensures
        r == (auto_start_service && !index_exists),
{
    auto_start_service && !index_exists
}

/// The bounds of the small window are never saved as those of the workspace.
pub proof fn law_quick_never_overwrites_full(s: DesktopRuntimeState)
    requires
        s.window_mode == WindowMode::Quick,
    ensures
        !persist_actions(s).contains(WindowAction::CaptureLayout),
        !persist_actions(s).contains(WindowAction::SaveBounds),
        !hide_actions(s).contains(WindowAction::CaptureLayout),
        !hide_actions(s).contains(WindowAction::SaveBounds),
{
    assert(persist_actions(s) =~= seq![WindowAction::PersistState(WindowMode::Quick)]);
    assert(hide_actions(s) =~= seq![
        WindowAction::UnloadPreview,
        WindowAction::PersistState(WindowMode::Quick),
        WindowAction::Hide,
        WindowAction::TrimMemory,
    ]);
}

/// What is written on the way from the workspace to the small window says workspace.
pub proof fn law_leaving_records_the_workspace(
    s: DesktopRuntimeState,
    visible: bool,
    minimized: bool,
)
    requires
        s.window_mode == WindowMode::Full,
    ensures
        show_actions(s, WindowMode::Quick, visible, minimized).contains(
            WindowAction::PersistState(WindowMode::Full),
        ),
        !show_actions(s, WindowMode::Quick, visible, minimized).contains(
            WindowAction::PersistState(WindowMode::Quick),
        ),
{
    let v = show_actions(s, WindowMode::Quick, visible, minimized);
    let first = seq![WindowAction::CaptureLayout] + persist_actions(s);
    let at = first.len() - 1;
    assert(v[at] == first[at]);
    assert(first[at] == WindowAction::PersistState(WindowMode::Full));
}

/// The preview is gone before the window is: nothing of it is left on the screen.
pub proof fn law_preview_goes_first(s: DesktopRuntimeState)
    ensures
        hide_actions(s)[0] == WindowAction::UnloadPreview,
        hide_actions(s).contains(WindowAction::Hide),
{
    let v = hide_actions(s);
    assert(v[v.len() - 2] == WindowAction::Hide);
}

/// After the small window the workspace gets the layout back that it had, remembered bounds or
/// not.
pub proof fn law_full_layout_comes_back(
    before: DesktopRuntimeState,
    layout: u64,
    last_mode: Option<WindowMode>,
)
    requires
        before.window_mode == WindowMode::Full,
        before.layout == Some(layout),
    ensures
        source_of(shown_in(before, WindowMode::Quick), WindowMode::Full, last_mode)
            == LayoutSource::Live(layout),
{
}

/// Where the workspace gets its place from: from before the small window where it comes back from
/// there; else, where bounds are remembered, what was remembered, or what the system remembers
/// unless the small window was there last; else the default. The small window has its default.
pub proof fn law_place_of_the_window(
    s: DesktopRuntimeState,
    last_mode: Option<WindowMode>,
)
    ensures
        source_of(s, WindowMode::Quick, last_mode) == LayoutSource::Default(WindowMode::Quick),
        s.layout matches Some(l) ==> {
            &&& s.pending_full_restore ==> source_of(s, WindowMode::Full, last_mode)
                == LayoutSource::Live(l)
            &&& !s.pending_full_restore && s.settings.remember_window_bounds ==> source_of(
                s,
                WindowMode::Full,
                last_mode,
            ) == LayoutSource::Saved(l)
        },
        s.layout is None && s.settings.remember_window_bounds && last_mode != Some(WindowMode::Quick)
            ==> source_of(s, WindowMode::Full, last_mode) == LayoutSource::System,
        s.layout is None && last_mode == Some(WindowMode::Quick) ==> source_of(
            s,
            WindowMode::Full,
            last_mode,
        ) == LayoutSource::Default(WindowMode::Full),
        !s.settings.remember_window_bounds && !s.pending_full_restore ==> source_of(
            s,
            WindowMode::Full,
            last_mode,
        ) == LayoutSource::Default(WindowMode::Full),
{
}

/// A window that comes up gets its mode and place before it is shown, and the focus last; one that
/// was visible is hidden first.
pub proof fn law_window_comes_up(
    s: DesktopRuntimeState,
    mode: WindowMode,
    visible: bool,
    minimized: bool,
)
    ensures
        ({
            let v = show_actions(s, mode, visible, minimized);
            &&& v.len() > 0 && v.last() == WindowAction::Focus
            &&& v.contains(WindowAction::EmitMode(mode)) && v.contains(
                WindowAction::ApplyLayout(mode),
            ) && v.contains(WindowAction::Show)
            &&& visible && !minimized ==> v.contains(WindowAction::Hide)
            &&& minimized ==> v.contains(WindowAction::Unminimize)
        }),
        shown_in(s, mode).window_mode == mode,
        shown_in(s, mode).settings == s.settings,
        shown_in(s, mode).layout == s.layout,
        shown_in(s, mode).quitting == s.quitting,
{
    let v = show_actions(s, mode, visible, minimized);
    let n = v.len() as int;
    let tail = if_then(minimized, WindowAction::ApplyLayout(mode));
    let at = n - 5 - tail.len();
    assert(v[at] == WindowAction::EmitMode(mode));
    assert(v[at + 1] == WindowAction::ApplyLayout(mode));
    assert(v[at + 3] == WindowAction::Show);
    if visible && !minimized {
        assert(v[at - 1] == WindowAction::Hide);
    }
    if minimized {
        assert(v[at - 1] == WindowAction::Unminimize);
    }
}

/// A window counts as visible where at least a hundred points each way lie on one screen.
pub proof fn law_visible_part(w: ScreenRect, m: ScreenRect)
    ensures
        visible_on(w, m) <==> {
            &&& w.width >= 100 && m.width >= 100 && w.height >= 100 && m.height >= 100
            &&& w.x + w.width - m.x >= 100 && m.x + m.width - w.x >= 100
            &&& w.y + w.height - m.y >= 100 && m.y + m.height - w.y >= 100
        },
{
}

/// Keeping the state of the window for later: never while the small window is up; with the large
/// one where bounds are remembered, or where it was kept before. Nothing else changes.
pub proof fn law_kept_state(s: DesktopRuntimeState)
    ensures
        s.window_mode == WindowMode::Quick ==> !persisted(s).save_enabled,
        s.window_mode == WindowMode::Full && s.settings.remember_window_bounds ==> persisted(
            s,
        ).save_enabled,
        s.window_mode == WindowMode::Full && !s.settings.remember_window_bounds ==> persisted(
            s,
        ).save_enabled == s.save_enabled,
        persisted(s).settings == s.settings,
        persisted(s).layout == s.layout,
        persisted(s).window_mode == s.window_mode,
        persisted(s).pending_full_restore == s.pending_full_restore,
        persisted(s).quitting == s.quitting,
        hidden(s).pending_full_restore == (s.pending_full_restore && s.window_mode
            == WindowMode::Quick),
        hidden(s).save_enabled == persisted(s).save_enabled,
        hidden(s).settings == s.settings,
        hidden(s).layout == s.layout,
        hidden(s).window_mode == s.window_mode,
        hidden(s).quitting == s.quitting,
{
}

/// Resetting the place of the large window puts it at its default and takes that over; the state is
/// kept last, and the bounds before it where they are remembered.
pub proof fn law_reset_of_the_window(s: DesktopRuntimeState)
    ensures
        reset_actions(s).last() == WindowAction::PersistState(s.window_mode),
        s.window_mode == WindowMode::Quick ==> reset_actions(s).len() == 1,
        s.window_mode == WindowMode::Full ==> reset_actions(s)[0] == WindowAction::ApplyDefault(
            WindowMode::Full,
        ) && reset_actions(s)[1] == WindowAction::CaptureLayout,
        s.window_mode == WindowMode::Full && s.settings.remember_window_bounds ==> reset_actions(
            s,
        ).len() == 4 && reset_actions(s)[2] == WindowAction::SaveBounds,
        s.window_mode == WindowMode::Full && !s.settings.remember_window_bounds ==> reset_actions(
            s,
        ).len() == 3,
{
}

/// A window is to be seen where enough of it lies on any one of the screens.
pub proof fn law_seen_on_a_screen(w: ScreenRect, monitors: Seq<ScreenRect>, i: int)
    ensures
        0 <= i < monitors.len() && visible_on(w, monitors[i]) ==> visible_on_any(w, monitors),
        (forall|j: int| 0 <= j < monitors.len() ==> !visible_on(w, #[trigger] monitors[j]))
            ==> !visible_on_any(w, monitors),
{
}

} // verus!
