//! Starting the program when the user logs in.
use vstd::prelude::*;
use crate::text;
use crate::utf16;

verus! {

/// Whether and how the program is started at login.
#[derive(Debug, Clone)]
pub struct AutostartState {
    /// It is, and what is started is this very program.
    pub enabled: bool,
    pub command: Option<String>,
    /// The system lets the program manage this.
    pub supported: bool,
    pub unsupported_reason: Option<String>,
}

pub struct AutostartStateView {
    pub enabled: bool,
    pub command: Option<Seq<char>>,
    pub supported: bool,
    pub unsupported_reason: Option<Seq<char>>,
}

impl View for AutostartState {
    type V = AutostartStateView;

    open spec fn view(&self) -> AutostartStateView {
        AutostartStateView {
            enabled: self.enabled,
            command: text::opt_view(self.command),
            supported: self.supported,
            unsupported_reason: text::opt_view(self.unsupported_reason),
        }
    }
}

/// Codes of the registry.
pub const SUCCESS: u32 = 0;

pub const FILE_NOT_FOUND: u32 = 2;

/// The command that starts the program at `exe`: quotes keep blanks in the path together.
pub open spec fn exe_command(exe: Seq<char>) -> Seq<char> {
    "\""@ + exe + "\""@
}

pub fn current_exe_command(exe: &str) -> (r: String)
    ensures
        r@ == exe_command(exe@),
{
    let mut s = text::copied("\"");
    s.push_str(exe);
    s.push_str("\"");
    s
}

/// What stands before the first quote, or all where there is none.
pub open spec fn up_to_quote(s: Seq<char>) -> Seq<char>
    decreases s.len(),
{
    if s.len() == 0 || s[0] == '"' {
        Seq::empty()
    } else {
        seq![s[0]] + up_to_quote(s.drop_first())
    }
}

proof fn lemma_up_to_quote(s: Seq<char>, n: int)
    requires
        0 <= n <= s.len(),
        forall|k: int| 0 <= k < n ==> s[k] != '"',
        n == s.len() || s[n] == '"',
    ensures
        up_to_quote(s) == s.take(n),
    decreases n,
{
    if n > 0 {
        let rest = s.drop_first();
        assert forall|k: int| 0 <= k < n - 1 implies rest[k] != '"' by {
            assert(rest[k] == s[k + 1]);
        }
        lemma_up_to_quote(rest, n - 1);
        assert(s.take(n) =~= seq![s[0]] + rest.take(n - 1));
    } else {
        assert(s.take(0) =~= Seq::empty());
    }
}

/// The path in a command: what stands between the quotes where the command begins with one, else
/// all of it.
pub open spec fn path_part(s: Seq<char>) -> Seq<char> {
    let t = text::trimmed(s);
    if t.len() > 0 && t[0] == '"' {
        up_to_quote(text::drop_while(t, text::only('"')))
    } else {
        text::stripped(t, '"')
    }
}

fn path_of(s: &str) -> (r: String)
    ensures
        r@ == path_part(s@),
{
    let t = text::trim(s);
    if !text::starts_with(&t, "\"") {
        proof {
            reveal_strlit("\"");
            assert(t@.len() > 0 && t@[0] == '"' ==> text::begins_with(t@, "\""@)) by {
                if t@.len() > 0 && t@[0] == '"' {
                    assert(t@.subrange(0, 1) =~= "\""@);
                }
            }
        }
        return text::trim_matches(&t, '"');
    }
    proof {
        reveal_strlit("\"");
        assert(t@.subrange(0, 1)[0] == "\""@[0]);
    }
    let u = text::trim_start_of(&t, '"');
    let cs = text::chars_of(&u);
    let mut n: usize = 0;
    while n < cs.len() && cs[n] != '"'
        invariant
            n <= cs.len(),
            forall|k: int| 0 <= k < n ==> cs@[k] != '"',
        decreases cs.len() - n,
    {
        n += 1;
    }
    proof {
        lemma_up_to_quote(cs@, n as int);
        assert(cs@.subrange(0, n as int) =~= cs@.take(n as int));
    }
    text::string_between(&cs, 0, n)
}

/// A path with one kind of separator, in lower case.
pub open spec fn one_spelling(s: Seq<char>) -> Seq<char> {
    text::lowercased(text::replaced(s, '/', "\\"@))
}

fn in_one_spelling(s: &str) -> (r: String)
    ensures
        r@ == one_spelling(s@),
{
    let v = text::replace_char(s, '/', "\\");
    text::to_lower(&v)
}

/// The stored command starts what the command of the program at `exe` starts, whatever the
/// arguments; nothing is known of a program without a path.
pub open spec fn matches_current(stored: Seq<char>, exe: Option<Seq<char>>) -> bool {
    exe matches Some(e) && one_spelling(path_part(stored)) == one_spelling(
        path_part(exe_command(e)),
    )
}

pub fn command_matches_current(stored: &str, exe: &Option<String>) -> (r: bool)
    ensures
        r == matches_current(stored@, text::opt_view(*exe)),
{
    match exe {
        Some(e) => {
            let path = path_of(stored);
            let current = current_exe_command(e);
            let own = path_of(&current);
            let a = in_one_spelling(&path);
            let b = in_one_spelling(&own);
            text::same_text(&a, &b)
        },
        None => false,
    }
}

/// Where the setting can be kept.
#[derive(Debug)]
pub enum Registry {
    /// The system has no such place that the program could use.
    Unsupported,
    /// What reading the stored command brought: nothing is stored, or it failed.
    Stored(Result<Option<String>, String>),
}

pub open spec fn unsupported_text() -> Seq<char> {
    "当前平台暂不支持由 FindX 管理开机启动（macOS 的 LaunchAgent / Linux 的 autostart 将在后续版本接入）"@
}

fn unsupported() -> (r: String)
    ensures
        r@ == unsupported_text(),
{
    text::copied(
        "当前平台暂不支持由 FindX 管理开机启动（macOS 的 LaunchAgent / Linux 的 autostart 将在后续版本接入）",
    )
}

/// The state that the registry shows to the program at `exe`.
pub open spec fn state_of(r: Registry, exe: Option<Seq<char>>) -> AutostartStateView {
    match r {
        Registry::Unsupported => AutostartStateView {
            enabled: false,
            command: None,
            supported: false,
            unsupported_reason: Some(unsupported_text()),
        },
        Registry::Stored(Ok(Some(c))) => AutostartStateView {
            enabled: matches_current(c@, exe),
            command: Some(c@),
            supported: true,
            unsupported_reason: None,
        },
        Registry::Stored(Ok(None)) => AutostartStateView {
            enabled: false,
            command: None,
            supported: true,
            unsupported_reason: None,
        },
        Registry::Stored(Err(e)) => AutostartStateView {
            enabled: false,
            command: None,
            supported: true,
            unsupported_reason: Some(e@),
        },
    }
}

pub fn read(registry: Registry, exe: &Option<String>) -> (r: AutostartState)
    ensures
        r@ == state_of(registry, text::opt_view(*exe)),
{
    match registry {
        Registry::Unsupported => AutostartState {
            enabled: false,
            command: None,
            supported: false,
            unsupported_reason: Some(unsupported()),
        },
        Registry::Stored(stored) => match stored {
            Ok(found) => match found {
                Some(c) => AutostartState {
                    enabled: command_matches_current(&c, exe),
                    command: Some(c),
                    supported: true,
                    unsupported_reason: None,
                },
                None => AutostartState {
                    enabled: false,
                    command: None,
                    supported: true,
                    unsupported_reason: None,
                },
            },
            Err(e) => AutostartState {
                enabled: false,
                command: None,
                supported: true,
                unsupported_reason: Some(e),
            },
        },
    }
}

/// What is done to the value that the system starts at login.
#[derive(Debug)]
pub enum RunChange {
    /// It is set to these bytes.
    Write(Vec<u8>),
    Delete,
}

pub enum RunChangeView {
    Write(Seq<u8>),
    Delete,
}

impl View for RunChange {
    type V = RunChangeView;

    open spec fn view(&self) -> RunChangeView {
        match *self {
            RunChange::Write(b) => RunChangeView::Write(b@),
            RunChange::Delete => RunChangeView::Delete,
        }
    }
}

/// Switching on writes the command of the program as a zero-terminated wide text, over whatever
/// stands there; switching off deletes it.
pub open spec fn change_for(enable: bool, exe: Seq<char>) -> RunChangeView {
    if enable {
        RunChangeView::Write(utf16::wide_text(exe_command(exe)) + seq![0u8, 0u8])
    } else {
        RunChangeView::Delete
    }
}

pub fn run_change(enable: bool, exe: &str) -> (r: RunChange)
    ensures
        r@ == change_for(enable, exe@),
{
    if enable {
        let command = current_exe_command(exe);
        let mut data = utf16::to_wide_bytes(&command);
        let ghost text = data@;
        data.push(0);
        data.push(0);
        assert(data@ =~= text + seq![0u8, 0u8]);
        RunChange::Write(data)
    } else {
        RunChange::Delete
    }
}

/// The value after a change that succeeded.
pub open spec fn value_after(before: Option<Seq<u8>>, change: RunChangeView) -> Option<Seq<u8>> {
    match change {
        RunChangeView::Write(b) => Some(b),
        RunChangeView::Delete => None,
    }
}

/// What reading finds where the key is there and holds `value`.
pub open spec fn read_of(value: Option<Seq<u8>>) -> Result<Option<Seq<char>>, Seq<char>> {
    match value {
        Some(b) => stored_command(SUCCESS, SUCCESS, SUCCESS, b),
        None => stored_command(SUCCESS, FILE_NOT_FOUND, SUCCESS, Seq::empty()),
    }
}

/// What a change of the registry said.
pub open spec fn change_error(enable: bool, code: u32) -> Option<Seq<char>> {
    if code == SUCCESS || (!enable && code == FILE_NOT_FOUND) {
        None
    } else {
        Some(
            (if enable {
                "写入自启动项失败: Win32 错误 "@
            } else {
                "删除自启动项失败: Win32 错误 "@
            }) + text::decimal(code as nat),
        )
    }
}

/// The end of switching the start at login on or off: `change` is the code of the change, or why
/// it was not tried (nothing on a system that does not support it), and `after` what the registry
/// holds afterwards. Deleting what is not there is no error.
pub fn apply(
    enable: bool,
    change: Option<Result<u32, String>>,
    after: Registry,
    exe: &Option<String>,
) -> (r: Result<AutostartState, String>)
    ensures
        match change {
            None => r matches Err(e) && e@ == unsupported_text(),
            Some(Err(e)) => r matches Err(t) && t@ == e@,
            Some(Ok(code)) => match change_error(enable, code) {
                Some(e) => r matches Err(t) && t@ == e,
                None => r matches Ok(s) && s@ == state_of(after, text::opt_view(*exe)),
            },
        },
{
    match change {
        None => Err(unsupported()),
        Some(done) => match done {
            Err(e) => Err(e),
            Ok(code) => {
                if code == SUCCESS || (!enable && code == FILE_NOT_FOUND) {
                    return Ok(read(after, exe));
                }
                let mut e = if enable {
                    text::copied("写入自启动项失败: Win32 错误 ")
                } else {
                    text::copied("删除自启动项失败: Win32 错误 ")
                };
                e.push_str(&text::decimal_text(code as u64));
                Err(e)
            },
        },
    }
}

/// What opening the key said: `None` for a key that is not there, which is no error when reading.
pub fn open_run_key(code: u32) -> (r: Result<Option<()>, String>)
    ensures
        if code == FILE_NOT_FOUND {
            r matches Ok(None)
        } else if code == SUCCESS {
            r matches Ok(Some(_))
        } else {
            r matches Err(e) && e@
                == "打开 HKCU\\Software\\Microsoft\\Windows\\CurrentVersion\\Run 失败: Win32 错误 "@
                + text::decimal(code as nat)
        },
{
    if code == FILE_NOT_FOUND {
        Ok(None)
    } else if code == SUCCESS {
        Ok(Some(()))
    } else {
        let mut e = text::copied(
            "打开 HKCU\\Software\\Microsoft\\Windows\\CurrentVersion\\Run 失败: Win32 错误 ",
        );
        e.push_str(&text::decimal_text(code as u64));
        Err(e)
    }
}

/// The stored command, as the codes of opening the key, asking for the length and reading say; a
/// key or a value that is not there is none.
pub open spec fn stored_command(open: u32, probe: u32, read: u32, bytes: Seq<u8>) -> Result<
    Option<Seq<char>>,
    Seq<char>,
> {
    if open == FILE_NOT_FOUND {
        Ok(None)
    } else if open != SUCCESS {
        Err(
            "打开 HKCU\\Software\\Microsoft\\Windows\\CurrentVersion\\Run 失败: Win32 错误 "@
                + text::decimal(open as nat),
        )
    } else if probe == FILE_NOT_FOUND {
        Ok(None)
    } else if probe != SUCCESS {
        Err("读取自启动项失败: Win32 错误 "@ + text::decimal(probe as nat))
    } else if read != SUCCESS {
        Err("读取自启动项失败: Win32 错误 "@ + text::decimal(read as nat))
    } else {
        Ok(Some(utf16::decoded(utf16::until_zero(utf16::le_units(bytes)))))
    }
}

pub open spec fn command_view(r: Result<Option<String>, String>) -> Result<
    Option<Seq<char>>,
    Seq<char>,
> {
    match r {
        Ok(c) => Ok(text::opt_view(c)),
        Err(e) => Err(e@),
    }
}

fn read_error(code: u32) -> (r: String)
    ensures
        r@ == "读取自启动项失败: Win32 错误 "@ + text::decimal(code as nat),
{
    let mut e = text::copied("读取自启动项失败: Win32 错误 ");
    e.push_str(&text::decimal_text(code as u64));
    e
}

pub fn read_command(open: u32, probe: u32, read: u32, bytes: &[u8]) -> (r: Result<
    Option<String>,
    String,
>)
    ensures
        command_view(r) == stored_command(open, probe, read, bytes@),
{
    match open_run_key(open) {
        Ok(Some(_)) => {},
        Ok(None) => {
            return Ok(None);
        },
        Err(e) => {
            return Err(e);
        },
    }
    if probe == FILE_NOT_FOUND {
        return Ok(None);
    }
    if probe != SUCCESS {
        return Err(read_error(probe));
    }
    if read != SUCCESS {
        return Err(read_error(read));
    }
    Ok(Some(utf16::from_wide_bytes(bytes)))
}

/// A quoted path is the path part of its command, whatever arguments follow the quotes, and the
/// command starts the program at that path.
pub proof fn law_arguments_do_not_matter(exe: Seq<char>, arguments: Seq<char>)
    requires
        exe.len() > 0,
        !exe.contains('"'),
        arguments.len() == 0 || !text::white(arguments.last()),
    ensures
        path_part(exe_command(exe) + arguments) == exe,
        matches_current(exe_command(exe) + arguments, Some(exe)),
{
    lemma_path_of_command(exe, arguments);
    lemma_path_of_command(exe, Seq::empty());
    assert(exe_command(exe) + Seq::<char>::empty() =~= exe_command(exe));
}

proof fn lemma_path_of_command(exe: Seq<char>, arguments: Seq<char>)
    requires
        exe.len() > 0,
        !exe.contains('"'),
        arguments.len() == 0 || !text::white(arguments.last()),
    ensures
        path_part(exe_command(exe) + arguments) == exe,
{
    reveal_strlit("\"");
    let s = exe_command(exe) + arguments;
    assert(s[0] == '"');
    assert(!text::white('"'));
    assert(arguments.len() == 0 ==> s.last() == '"');
    assert(arguments.len() > 0 ==> s.last() == arguments.last());
    assert(text::trimmed(s) == s);
    let u = s.drop_first();
    assert forall|k: int| 0 <= k < exe.len() implies u[k] != '"' by {
        assert(u[k] == exe[k]);
        assert(exe.contains(exe[k]));
    }
    assert(u[exe.len() as int] == '"');
    assert(text::drop_while(u, text::only('"')) == u);
    lemma_up_to_quote(u, exe.len() as int);
    assert(u.take(exe.len() as int) =~= exe);
}

/// What was switched shows as it was switched: after switching on, the stored command is the path
/// of this program in quotes and shows as enabled; after switching off none is stored, whether or
/// not there was one. Switching the same way again changes nothing. For every path without a zero
/// character, which no path holds.
pub proof fn law_switched_state_reads_back(
    before: Option<Seq<u8>>,
    enable: bool,
    exe: Seq<char>,
    stored: Result<Option<String>, String>,
)
    requires
        !exe.contains('\0'),
        command_view(stored) == read_of(value_after(before, change_for(enable, exe))),
    ensures
        ({
            let change = change_for(enable, exe);
            let once = value_after(before, change);
            value_after(once, change) == once
        }),
        change_error(enable, SUCCESS) is None,
        change_error(false, FILE_NOT_FOUND) is None,
        state_of(Registry::Stored(stored), Some(exe)) == (AutostartStateView {
            enabled: enable,
            command: if enable {
                Some(exe_command(exe))
            } else {
                None
            },
            supported: true,
            unsupported_reason: None,
        }),
{
    if enable {
        let c = exe_command(exe);
        reveal_strlit("\"");
        assert forall|k: int| 0 <= k < c.len() implies c[k] != '\0' by {
            if 0 < k < c.len() - 1 {
                assert(c[k] == exe[k - 1]);
                assert(exe.contains(exe[k - 1]));
            }
        }
        utf16::law_wide_text_reads_back(c, Seq::empty());
        let b = utf16::wide_text(c) + seq![0u8, 0u8];
        assert(b + Seq::<u8>::empty() =~= b);
    }
}

/// The case of letters and the kind of separators in the stored path do not matter.
pub proof fn law_spelling_does_not_matter(a: Seq<char>, b: Seq<char>, exe: Option<Seq<char>>)
    requires
        one_spelling(path_part(a)) == one_spelling(path_part(b)),
    ensures
        matches_current(a, exe) == matches_current(b, exe),
{
}

} // verus!
