//! The helper process that shows the compatibility window in a user's session.
use vstd::prelude::*;
use crate::text;

verus! {

/// The pause before the helper is started again, in seconds.
pub const RESTART_SECS: u64 = 5;

/// The command line of the helper.
pub open spec fn host_command(exe: Seq<char>, pipe: Seq<char>) -> Seq<char> {
    "\""@ + exe + "\" --everything-host --pipe "@ + pipe
}

/// The command line for the session of the user at the console, where there is one.
pub fn spawn_everything_host(session: u32, exe: &str, pipe: &str) -> (r: Result<String, String>)
    ensures
        match r {
            Ok(c) => session != 0 && session != u32::MAX && c@ == host_command(exe@, pipe@),
            Err(e) => (session == 0 || session == u32::MAX) && e@
                == "当前没有交互用户会话"@,
        },
{
    if session == 0 || session == u32::MAX {
        return Err(text::copied("当前没有交互用户会话"));
    }
    let mut s = text::copied("\"");
    s.push_str(exe);
    s.push_str("\" --everything-host --pipe ");
    s.push_str(pipe);
    Ok(s)
}

/// The command names the program in quotes, asks for the helper and names the pipe last.
pub proof fn law_command_of_the_helper(exe: Seq<char>, pipe: Seq<char>)
    ensures
        ({
            let c = host_command(exe, pipe);
            let n = exe.len() as int;
            &&& c[0] == '"' && c[n + 1] == '"'
            &&& c.subrange(1, n + 1) == exe
            &&& c.subrange(n + 2, c.len() - pipe.len()) == " --everything-host --pipe "@
            &&& c.skip(c.len() - pipe.len()) == pipe
        }),
{
    reveal_strlit("\"");
    reveal_strlit("\" --everything-host --pipe ");
    reveal_strlit(" --everything-host --pipe ");
    let c = host_command(exe, pipe);
    let n = exe.len() as int;
    assert(c.subrange(1, n + 1) =~= exe);
    assert(c.subrange(n + 2, c.len() - pipe.len()) =~= " --everything-host --pipe "@);
    assert(c.skip(c.len() - pipe.len()) =~= pipe);
}

} // verus!
