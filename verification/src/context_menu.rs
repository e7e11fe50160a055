//! The menu of a hit: a short one of the program's own, and the menu of the system behind it.
use vstd::prelude::*;
use crate::paths::{self, PathStyle};
use crate::text;
use crate::utf16;
use crate::win_preview::{self, ChildWindow};

verus! {

/// The first number of the system's commands.
pub const SHELL_CMD_FIRST: u32 = 0x1000;

/// One notch of the wheel.
pub const WHEEL_DELTA: i32 = 120;

/// Lines that a notch scrolls.
pub const WHEEL_LINES_PER_NOTCH: u32 = 3;

/// The class of a menu's window.
pub open spec fn menu_class() -> Seq<char> {
    "#32768"@
}

/// Where the menu comes up: at the pointer; the page's coordinates are only a substitute, since
/// they are off where monitors are scaled differently.
pub fn track_popup_anchor_screen(cursor: Option<(i32, i32)>, x: i32, y: i32) -> (r: (i32, i32))
    ensures
        r == (match cursor {
            Some(p) => p,
            None => (x, y),
        }),
{
    match cursor {
        Some(p) => p,
        None => (x, y),
    }
}

/// The greatest height of a menu on a monitor whose free area has these upper and lower edges.
pub open spec fn menu_height(area: Option<(i32, i32)>) -> int {
    match area {
        Some((top, bottom)) => if bottom - top - 24 < 240 {
            240
        } else {
            bottom - top - 24
        },
        None => 720,
    }
}

pub fn work_area_max_menu_height(area: Option<(i32, i32)>) -> (r: u32)
    ensures
        r == menu_height(area),
        r >= 240,
{
    match area {
        Some(a) => {
            let h: i64 = a.1 as i64 - a.0 as i64 - 24;
            if h < 240 {
                240
            } else {
                h as u32
            }
        },
        None => 720,
    }
}

// ---- the wheel ----------------------------------------------------------------------------

/// The turn of the wheel in a message: the upper half of its lower 32 bits, with a sign.
pub open spec fn turn_of(wparam: u64) -> int {
    let n = (wparam / 65536) % 65536;
    if n >= 32768 {
        n - 65536
    } else {
        n as int
    }
}

pub fn wheel_delta(wparam: u64) -> (r: i32)
    ensures
        r == turn_of(wparam),
        -32768 <= r < 32768,
{
    let n: u64 = (wparam / 65536) % 65536;
    if n >= 32768 {
        n as i32 - 65536
    } else {
        n as i32
    }
}

/// Whole notches in a turn, toward zero.
pub open spec fn notches(turn: int) -> int {
    if turn >= 0 {
        turn / 120
    } else {
        -((-turn) / 120)
    }
}

/// The part of a notch that is left over.
#[derive(Debug, Clone, Copy, PartialEq, Eq, Structural)]
pub struct Wheel {
    pub rest: i32,
}

/// Keys that a menu understands in place of the wheel: so many times up or down.
#[derive(Debug, Clone, Copy, PartialEq, Eq, Structural)]
pub enum Scroll {
    Nothing,
    Up(u32),
    Down(u32),
}

pub open spec fn scroll_of(n: int) -> Scroll {
    if n > 0 {
        Scroll::Up((n * WHEEL_LINES_PER_NOTCH) as u32)
    } else if n < 0 {
        Scroll::Down((-n * WHEEL_LINES_PER_NOTCH) as u32)
    } else {
        Scroll::Nothing
    }
}

impl Wheel {
    pub open spec fn wf(&self) -> bool {
        -WHEEL_DELTA < self.rest < WHEEL_DELTA
    }

    pub fn new() -> (r: Wheel)
        ensures
            r.wf(),
            r.rest == 0,
    {
        Wheel { rest: 0 }
    }

    /// Adds a turn; whole notches become keys, the rest waits for the next turn.
    pub fn scroll_popup_menu(&mut self, delta: i32) -> (r: Scroll)
        requires
            old(self).wf(),
            -32768 <= delta < 32768,
        ensures
            final(self).wf(),
            r == scroll_of(notches(old(self).rest + delta)),
            final(self).rest + 120 * notches(old(self).rest + delta) == old(self).rest + delta,
    {
        let turn: i32 = self.rest + delta;
        if turn >= 0 {
            let n: u32 = turn as u32 / 120;
            self.rest = (turn as u32 % 120) as i32;
            if n > 0 {
                Scroll::Up(n * WHEEL_LINES_PER_NOTCH)
            } else {
                Scroll::Nothing
            }
        } else {
            let back: u32 = (-turn) as u32;
            let n: u32 = back / 120;
            self.rest = -((back % 120) as i32);
            if n > 0 {
                Scroll::Down(n * WHEEL_LINES_PER_NOTCH)
            } else {
                Scroll::Nothing
            }
        }
    }
}

/// The menu's window that gets the keys: the one under the pointer, else the first visible one of
/// the program. `windows` are its visible windows.
pub open spec fn menu_window(hit: Option<(u64, Seq<char>)>, windows: Seq<(u64, Seq<char>)>) -> Option<
    u64,
> {
    match hit {
        Some((h, class)) if class == menu_class() => Some(h),
        _ => first_menu(windows),
    }
}

pub open spec fn first_menu(windows: Seq<(u64, Seq<char>)>) -> Option<u64>
    decreases windows.len(),
{
    if windows.len() == 0 {
        None
    } else if windows[0].1 == menu_class() {
        Some(windows[0].0)
    } else {
        first_menu(windows.drop_first())
    }
}

pub open spec fn hit_view(hit: Option<ChildWindow>) -> Option<(u64, Seq<char>)> {
    match hit {
        Some(w) => Some((w.handle, w.class@)),
        None => None,
    }
}

pub fn find_popup_menu_hwnd(hit: &Option<ChildWindow>, windows: &Vec<ChildWindow>) -> (r: Option<u64>)
    ensures
        r == menu_window(hit_view(*hit), win_preview::windows_view(windows@)),
{
    match hit {
        Some(w) => {
            if text::same_text(&w.class, "#32768") {
                return Some(w.handle);
            }
        },
        None => {},
    }
    let ghost all = win_preview::windows_view(windows@);
    let mut i: usize = 0;
    assert(all.skip(0) =~= all);
    while i < windows.len()
        invariant
            i <= windows.len(),
            all == win_preview::windows_view(windows@),
            menu_window(hit_view(*hit), all) == first_menu(all.skip(i as int)),
        decreases windows.len() - i,
    {
        assert(all.skip(i as int)[0] == (windows@[i as int].handle, windows@[i as int].class@));
        if text::same_text(&windows[i].class, "#32768") {
            return Some(windows[i].handle);
        }
        assert(all.skip(i as int).drop_first() =~= all.skip(i + 1));
        i += 1;
    }
    None
}

/// Who gets a message while a menu is open.
#[derive(Debug, Clone, Copy, PartialEq, Eq, Structural)]
pub enum MenuMessage {
    /// The newest interface of the system's menu.
    Newest,
    /// The one before it.
    Older,
    /// The window, as always.
    Window,
}

/// Messages for drawing and opening menus go to the menu's extensions, so that they can draw
/// themselves; the newest interface that they have gets them.
pub fn shell_menu_message(msg: u32, has_newest: bool, has_older: bool) -> (r: MenuMessage)
    ensures
        r == (if msg == 0x117 || msg == 0x2B || msg == 0x2C || msg == 0x120 {
            if has_newest {
                MenuMessage::Newest
            } else if has_older {
                MenuMessage::Older
            } else {
                MenuMessage::Window
            }
        } else {
            MenuMessage::Window
        }),
{
    if msg == 0x117 || msg == 0x2B || msg == 0x2C || msg == 0x120 {
        if has_newest {
            MenuMessage::Newest
        } else if has_older {
            MenuMessage::Older
        } else {
            MenuMessage::Window
        }
    } else {
        MenuMessage::Window
    }
}

/// A message while a menu is open is a turn of the wheel, which the menu does not know itself.
pub fn menu_msg_filter(code: i32, has_message: bool, message: u32) -> (r: bool)
    ensures
        r == (code == 2 && has_message && message == 0x20A),
{
    code == 2 && has_message && message == 0x20A
}

// ---- the program's own menu ---------------------------------------------------------------

/// A line of the menu: a command with its number and text, or a rule.
#[derive(Debug)]
pub enum MenuLine {
    Command(u32, &'static str),
    Separator,
}

pub enum MenuLineView {
    Command(u32, Seq<char>),
    Separator,
}

impl View for MenuLine {
    type V = MenuLineView;

    open spec fn view(&self) -> MenuLineView {
        match *self {
            MenuLine::Command(n, t) => MenuLineView::Command(n, t@),
            MenuLine::Separator => MenuLineView::Separator,
        }
    }
}

pub open spec fn lines_view(v: Seq<MenuLine>) -> Seq<MenuLineView> {
    v.map_values(|l: MenuLine| l@)
}

pub open spec fn own_menu() -> Seq<MenuLineView> {
    seq![
        MenuLineView::Command(1, "打开(&O)"@),
        MenuLineView::Command(2, "打开路径(&P)"@),
        MenuLineView::Command(3, "复制路径(&C)"@),
        MenuLineView::Command(4, "复制文件名(&N)"@),
        MenuLineView::Separator,
        MenuLineView::Command(5, "删除(&D)"@),
        MenuLineView::Separator,
        MenuLineView::Command(6, "更多 Windows 操作(&M)..."@),
    ]
}

pub fn findx_menu() -> (r: Vec<MenuLine>)
    ensures
        lines_view(r@) == own_menu(),
{
    let mut v: Vec<MenuLine> = Vec::new();
    v.push(MenuLine::Command(1, "打开(&O)"));
    v.push(MenuLine::Command(2, "打开路径(&P)"));
    v.push(MenuLine::Command(3, "复制路径(&C)"));
    v.push(MenuLine::Command(4, "复制文件名(&N)"));
    v.push(MenuLine::Separator);
    v.push(MenuLine::Command(5, "删除(&D)"));
    v.push(MenuLine::Separator);
    v.push(MenuLine::Command(6, "更多 Windows 操作(&M)..."));
    assert(lines_view(v@) =~= own_menu());
    v
}

#[derive(Debug, Clone, Copy, PartialEq, Eq, Structural)]
pub enum FindxPick {
    Nothing,
    Open,
    OpenParent,
    CopyPath,
    CopyName,
    Delete,
    More,
}

pub open spec fn pick_of(n: u32) -> FindxPick {
    if n == 1 {
        FindxPick::Open
    } else if n == 2 {
        FindxPick::OpenParent
    } else if n == 3 {
        FindxPick::CopyPath
    } else if n == 4 {
        FindxPick::CopyName
    } else if n == 5 {
        FindxPick::Delete
    } else if n == 6 {
        FindxPick::More
    } else {
        FindxPick::Nothing
    }
}

/// The command that the menu returned; 0 is none.
pub fn show_findx_menu(picked: u32) -> (r: FindxPick)
    ensures
        r == pick_of(picked),
{
    match picked {
        1 => FindxPick::Open,
        2 => FindxPick::OpenParent,
        3 => FindxPick::CopyPath,
        4 => FindxPick::CopyName,
        5 => FindxPick::Delete,
        6 => FindxPick::More,
        _ => FindxPick::Nothing,
    }
}

/// Every command of the menu does something, and no two do the same.
pub proof fn law_every_command_acts(i: int, j: int)
    requires
        0 <= i < j < own_menu().len(),
    ensures
        own_menu()[i] matches MenuLineView::Command(n, _) ==> pick_of(n) != FindxPick::Nothing,
        (own_menu()[i] matches MenuLineView::Command(n, _) && own_menu()[j] matches
            MenuLineView::Command(m, _) && pick_of(n) == pick_of(m)) ==> false,
{
}

/// What a hit's menu begins with.
#[derive(Debug)]
pub enum HitMenu {
    Refused(String),
    /// The system's menu with everything in it.
    ShellExtended,
    OwnMenu,
}

/// With the shift key the system's menu comes up at once.
pub fn run_composite_hit_menu(present: bool, shift: bool) -> (r: HitMenu)
    ensures
        match r {
            HitMenu::Refused(e) => !present && e@ == "所选路径在磁盘上不存在。"@,
            HitMenu::ShellExtended => present && shift,
            HitMenu::OwnMenu => present && !shift,
        },
{
    if !present {
        HitMenu::Refused(text::copied("所选路径在磁盘上不存在。"))
    } else if shift {
        HitMenu::ShellExtended
    } else {
        HitMenu::OwnMenu
    }
}

/// What a command does with the path.
#[derive(Debug)]
pub enum HitAction {
    Nothing,
    Open,
    Reveal,
    /// Put this text on the clipboard.
    Copy(String),
    Recycle,
    ShellMenu,
}

pub enum HitActionView {
    Nothing,
    Open,
    Reveal,
    Copy(Seq<char>),
    Recycle,
    ShellMenu,
}

impl View for HitAction {
    type V = HitActionView;

    open spec fn view(&self) -> HitActionView {
        match *self {
            HitAction::Nothing => HitActionView::Nothing,
            HitAction::Open => HitActionView::Open,
            HitAction::Reveal => HitActionView::Reveal,
            HitAction::Copy(s) => HitActionView::Copy(s@),
            HitAction::Recycle => HitActionView::Recycle,
            HitAction::ShellMenu => HitActionView::ShellMenu,
        }
    }
}

/// The name of the last part; the whole path where it has none.
pub open spec fn copied_name(path: Seq<char>) -> Seq<char> {
    match paths::file_name_of(PathStyle::Windows, path) {
        Some(n) if n.len() > 0 => n,
        _ => path,
    }
}

pub open spec fn action_for(pick: FindxPick, path: Seq<char>) -> HitActionView {
    match pick {
        FindxPick::Nothing => HitActionView::Nothing,
        FindxPick::Open => HitActionView::Open,
        FindxPick::OpenParent => HitActionView::Reveal,
        FindxPick::CopyPath => HitActionView::Copy(path),
        FindxPick::CopyName => HitActionView::Copy(copied_name(path)),
        FindxPick::Delete => HitActionView::Recycle,
        FindxPick::More => HitActionView::ShellMenu,
    }
}

pub fn on_pick(pick: FindxPick, path: &str) -> (r: HitAction)
    ensures
        r@ == action_for(pick, path@),
{
    match pick {
        FindxPick::Nothing => HitAction::Nothing,
        FindxPick::Open => HitAction::Open,
        FindxPick::OpenParent => HitAction::Reveal,
        FindxPick::CopyPath => HitAction::Copy(text::copied(path)),
        FindxPick::CopyName => {
            match paths::file_name(PathStyle::Windows, path) {
                Some(n) => {
                    if n.as_str().is_empty() {
                        HitAction::Copy(text::copied(path))
                    } else {
                        HitAction::Copy(n)
                    }
                },
                None => HitAction::Copy(text::copied(path)),
            }
        },
        FindxPick::Delete => HitAction::Recycle,
        FindxPick::More => HitAction::ShellMenu,
    }
}

// ---- the system's menu --------------------------------------------------------------------

/// The command of the system's menu that was chosen: none, or its offset.
pub fn show_shell_menu(cmd: u32) -> (r: Result<Option<u32>, String>)
    ensures
        match r {
            Ok(None) => cmd < SHELL_CMD_FIRST,
            Ok(Some(n)) => cmd >= SHELL_CMD_FIRST && n == cmd - SHELL_CMD_FIRST && n <= 0xFFFF,
            Err(e) => cmd - SHELL_CMD_FIRST > 0xFFFF && e@ == "无效的系统菜单命令。"@,
        },
{
    if cmd < SHELL_CMD_FIRST {
        return Ok(None);
    }
    let offset: u32 = cmd - SHELL_CMD_FIRST;
    if offset > 0xFFFF {
        return Err(text::copied("无效的系统菜单命令。"));
    }
    Ok(Some(offset))
}

/// A path as the recycle bin takes it: a list of one, ended by two zeros.
pub fn recycle_list(path: &str) -> (r: Vec<u16>)
    ensures
        r@ == utf16::encoded(path@) + seq![0u16, 0u16],
{
    let mut v = utf16::to_wide(path);
    v.push(0);
    v.push(0);
    assert(v@ =~= utf16::encoded(path@) + seq![0u16, 0u16]);
    v
}

/// How the recycling ended; that the user stopped it is no error.
pub fn recycle_path(code: i32, aborted: bool) -> (r: Result<(), String>)
    ensures
        match r {
            Ok(_) => code == 0 || aborted,
            Err(e) => code != 0 && !aborted && e@ == "移至回收站失败（SHFileOperationW 返回 "@
                + text::signed_decimal(code as int)
                + "）。请确认路径存在且未被占用。"@,
        },
{
    if code == 0 || aborted {
        return Ok(());
    }
    let mut e = text::copied("移至回收站失败（SHFileOperationW 返回 ");
    e.push_str(&text::signed_decimal_text(code as i64));
    e.push_str("）。请确认路径存在且未被占用。");
    Err(e)
}

/// Each line of the menu does what it says.
pub proof fn law_menu_does_what_it_says(path: Seq<char>)
    ensures
        own_menu()[0] matches MenuLineView::Command(n, t) && t == "打开(&O)"@ && action_for(
            pick_of(n),
            path,
        ) == HitActionView::Open,
        own_menu()[1] matches MenuLineView::Command(n, t) && t == "打开路径(&P)"@ && action_for(
            pick_of(n),
            path,
        ) == HitActionView::Reveal,
        own_menu()[2] matches MenuLineView::Command(n, t) && t == "复制路径(&C)"@ && action_for(
            pick_of(n),
            path,
        ) == HitActionView::Copy(path),
        own_menu()[3] matches MenuLineView::Command(n, t) && t == "复制文件名(&N)"@ && action_for(
            pick_of(n),
            path,
        ) == HitActionView::Copy(copied_name(path)),
        own_menu()[5] matches MenuLineView::Command(n, t) && t == "删除(&D)"@ && action_for(
            pick_of(n),
            path,
        ) == HitActionView::Recycle,
        own_menu()[7] matches MenuLineView::Command(n, t) && t == "更多 Windows 操作(&M)..."@
            && action_for(pick_of(n), path) == HitActionView::ShellMenu,
        own_menu().len() == 8,
        action_for(pick_of(0), path) == HitActionView::Nothing,
{
}

/// The name that is copied of a file is what stands behind the last separator of its path.
pub proof fn law_copied_name(dir: Seq<char>, stem: Seq<char>, ext: Seq<char>)
    requires
        paths::drive_prefix(PathStyle::Windows, dir),
        stem.len() > 0,
        paths::plain_name(stem + "."@ + ext),
        !ext.contains('.'),
    ensures
        copied_name(dir + seq!['\\'] + (stem + "."@ + ext)) == stem + "."@ + ext,
{
    paths::law_name_of_a_file(PathStyle::Windows, dir, stem, ext);
}

/// The turn of the wheel is the upper half of the low word pair, with a sign; a full notch is 120.
pub proof fn law_wheel_turns(wparam: u64, turn: int)
    ensures
        -32768 <= turn_of(wparam) < 32768,
        (turn_of(wparam) - (wparam / 65536)) % 65536 == 0,
        turn >= 0 ==> notches(turn) * 120 <= turn < (notches(turn) + 1) * 120,
        notches(-turn) == -notches(turn),
{
}

/// The menu is as high as the work area leaves room for, at least 240 and without one 720.
pub proof fn law_menu_height(top: i32, bottom: i32)
    ensures
        bottom - top >= 264 ==> menu_height(Some((top, bottom))) == bottom - top - 24,
        bottom - top < 264 ==> menu_height(Some((top, bottom))) == 240,
        menu_height(None) == 720,
{
}

/// Each notch of the wheel turns the menu by three lines, up or down.
pub proof fn law_notches(n: int)
    requires
        -1000 < n < 1000,
    ensures
        n > 0 ==> scroll_of(n) == Scroll::Up((3 * n) as u32),
        n < 0 ==> scroll_of(n) == Scroll::Down((-3 * n) as u32),
        n == 0 ==> scroll_of(n) == Scroll::Nothing,
        menu_class() == "#32768"@,
{
}

} // verus!
