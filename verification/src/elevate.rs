//! Arguments for programs that are started with more rights.
use vstd::prelude::*;
use crate::text;

verus! {

/// The argument needs quotes: it is empty or holds white space or a quote.
pub open spec fn needs_quotes(s: Seq<char>) -> bool {
    s.len() == 0 || exists|i: int| 0 <= i < s.len() && (text::white(#[trigger] s[i]) || s[i] == '"')
}

/// The argument as it stands on a command line.
pub open spec fn quoted(s: Seq<char>) -> Seq<char> {
    if needs_quotes(s) {
        "\""@ + text::replaced(s, '"', "\\\""@) + "\""@
    } else {
        s
    }
}

pub fn quote_arg(s: &str) -> (r: String)
    ensures
        r@ == quoted(s@),
{
    let cs = text::chars_of(s);
    let mut need = cs.len() == 0;
    let mut i: usize = 0;
    while i < cs.len()
        invariant
            i <= cs.len(),
            cs@ == s@,
            need <==> s@.len() == 0 || exists|k: int|
                0 <= k < i && (text::white(#[trigger] s@[k]) || s@[k] == '"'),
        decreases cs.len() - i,
    {
        if text::is_white(cs[i]) || cs[i] == '"' {
            need = true;
            assert(text::white(s@[i as int]) || s@[i as int] == '"');
        }
        i += 1;
    }
    if need {
        let mut out = text::copied("\"");
        out.push_str(&text::replace_char(s, '"', "\\\""));
        out.push_str("\"");
        out
    } else {
        text::copied(s)
    }
}

/// The arguments as one command line.
pub open spec fn shell_params(args: Seq<Seq<char>>) -> Seq<char> {
    text::joined(args.map_values(|a: Seq<char>| quoted(a)), " "@)
}

pub fn index_cli_args_to_shell_params(args: &Vec<String>) -> (r: String)
    ensures
        r@ == shell_params(text::texts(args@)),
{
    let mut out: Vec<String> = Vec::new();
    let ghost all = text::texts(args@);
    let ghost f = |a: Seq<char>| quoted(a);
    let mut i: usize = 0;
    while i < args.len()
        invariant
            i <= args.len(),
            all == text::texts(args@),
            f == (|a: Seq<char>| quoted(a)),
            text::texts(out@) == all.take(i as int).map_values(f),
        decreases args.len() - i,
    {
        let ghost had = text::texts(out@);
        out.push(quote_arg(&args[i]));
        proof {
            assert(all[i as int] == args@[i as int]@);
            assert(text::texts(out@) =~= had.push(quoted(args@[i as int]@)));
            assert(text::texts(out@) =~= all.take(i + 1).map_values(f));
        }
        i += 1;
    }
    assert(all.take(all.len() as int) =~= all);
    text::join(&out, " ")
}

/// What a program with more rights came to: started and not waited for, or ended with a code.
pub fn succeeded(code: Option<u32>) -> (r: bool)
    ensures
        r == (code == Some(0u32)),
{
    match code {
        Some(c) => c == 0,
        None => false,
    }
}

/// An argument is never empty on the command line, and white space in it always stands between
/// quotes.
pub proof fn law_quoting(s: Seq<char>)
    ensures
        quoted(s).len() > 0,
        needs_quotes(s) ==> quoted(s)[0] == '"' && quoted(s).last() == '"' && quoted(s).len() >= 2,
        !needs_quotes(s) ==> quoted(s) == s,
{
    reveal_strlit("\"");
}

// ---- running with more rights -------------------------------------------------------------

/// What the system said about a program that was started with more rights.
#[derive(Debug)]
pub struct RunAs {
    pub launched: Result<(), String>,
    /// The system gave a handle to wait for.
    pub has_handle: bool,
    pub exit_code: Result<u32, String>,
    pub closed: Result<(), String>,
}

/// The exit code where the end is waited for, nothing where it is not, or what went wrong first.
pub open spec fn run_result(wait: bool, r: RunAs) -> Result<Option<u32>, Seq<char>> {
    match (r.launched, r.exit_code, r.closed) {
        (Err(e), _, _) => Err("UAC 启动失败: "@ + e@),
        (Ok(_), code, closed) => if !wait {
            Ok(None)
        } else if !r.has_handle {
            Err("未能获取提权子进程句柄"@)
        } else {
            match (code, closed) {
                (Err(e), _) => Err("读取退出码失败: "@ + e@),
                (Ok(_), Err(e)) => Err("CloseHandle: "@ + e@),
                (Ok(c), Ok(_)) => Ok(Some(c)),
            }
        },
    }
}

fn failure(what: &str, e: &str) -> (r: String)
    ensures
        r@ == what@ + e@,
{
    let mut s = text::copied(what);
    s.push_str(e);
    s
}

pub fn shell_execute_runas(wait_for_exit: bool, ran: &RunAs) -> (r: Result<Option<u32>, String>)
    ensures
        text::with_text(r) == run_result(wait_for_exit, *ran),
{
    if let Err(e) = &ran.launched {
        return Err(failure("UAC 启动失败: ", e));
    }
    if !wait_for_exit {
        return Ok(None);
    }
    if !ran.has_handle {
        return Err(text::copied("未能获取提权子进程句柄"));
    }
    match &ran.exit_code {
        Err(e) => Err(failure("读取退出码失败: ", e)),
        Ok(c) => match &ran.closed {
            Err(e) => Err(failure("CloseHandle: ", e)),
            Ok(_) => Ok(Some(*c)),
        },
    }
}

/// What the result of a start with more rights is: a failure to start is one, without waiting there
/// is no code, and with waiting it is the code of the program.
pub proof fn law_run_result(r: RunAs)
    ensures
        r.launched is Err ==> run_result(true, r) is Err && run_result(false, r) is Err,
        r.launched is Ok ==> run_result(false, r) == Ok::<Option<u32>, Seq<char>>(None),
        r.launched is Ok && r.has_handle && r.closed is Ok ==> (r.exit_code matches Ok(c)
            ==> run_result(true, r) == Ok::<Option<u32>, Seq<char>>(Some(c))),
        r.launched is Ok && !r.has_handle ==> run_result(true, r) is Err,
{
}

/// The argument that a quoted text stands for: without the outer quotes, and each escaped quote as
/// one.
pub open spec fn unescaped(s: Seq<char>) -> Seq<char>
    decreases s.len(),
{
    if s.len() == 0 {
        Seq::empty()
    } else if s.len() >= 2 && s[0] == '\\' && s[1] == '"' {
        seq!['"'] + unescaped(s.skip(2))
    } else {
        seq![s[0]] + unescaped(s.drop_first())
    }
}

proof fn lemma_unescaped_parts(a: Seq<char>, b: Seq<char>)
    requires
        b.len() > 0 ==> b[0] != '"',
    ensures
        unescaped(a + b) == unescaped(a) + unescaped(b),
    decreases a.len(),
{
    let s = a + b;
    if a.len() == 0 {
        assert(s =~= b);
        assert(unescaped(a) + unescaped(b) =~= unescaped(b));
    } else if a.len() >= 2 && a[0] == '\\' && a[1] == '"' {
        assert(s.skip(2) =~= a.skip(2) + b);
        lemma_unescaped_parts(a.skip(2), b);
        assert(unescaped(s) =~= unescaped(a) + unescaped(b));
    } else {
        assert(s.drop_first() =~= a.drop_first() + b);
        lemma_unescaped_parts(a.drop_first(), b);
        assert(unescaped(s) =~= unescaped(a) + unescaped(b));
    }
}

proof fn lemma_unescaped_replaced(s: Seq<char>)
    ensures
        unescaped(text::replaced(s, '"', "\\\""@)) == s,
    decreases s.len(),
{
    reveal_strlit("\\\"");
    let esc = "\\\""@;
    if s.len() == 0 {
        assert(unescaped(text::replaced(s, '"', esc)) =~= s);
    } else {
        let t = s.drop_last();
        let c = s.last();
        let r = text::replaced(t, '"', esc);
        lemma_unescaped_replaced(t);
        assert(t.push(c) =~= s);
        if c == '"' {
            lemma_unescaped_parts(r, esc);
            reveal_with_fuel(unescaped, 2);
            assert(esc.skip(2) =~= Seq::empty());
            assert(unescaped(esc) =~= seq!['"']);
        } else {
            let one = seq![c];
            lemma_unescaped_parts(r, one);
            reveal_with_fuel(unescaped, 2);
            assert(one.drop_first() =~= Seq::empty());
            assert(unescaped(one) =~= one);
            assert(r + one =~= r.push(c));
        }
    }
}

/// A quoted argument stands for the argument: without its outer quotes, and with each escaped quote
/// as one, it is what it was made of.
pub proof fn law_quoted_arguments_read_back(s: Seq<char>)
    ensures
        needs_quotes(s) ==> unescaped(quoted(s).subrange(1, quoted(s).len() - 1)) == s,
        !needs_quotes(s) ==> quoted(s) == s && !s.contains(' ') && s.len() > 0,
{
    reveal_strlit("\"");
    if needs_quotes(s) {
        let r = text::replaced(s, '"', "\\\""@);
        assert(quoted(s).subrange(1, quoted(s).len() - 1) =~= r);
        lemma_unescaped_replaced(s);
    } else if s.contains(' ') {
        let i = choose|i: int| 0 <= i < s.len() && s[i] == ' ';
        assert(text::white(s[i]));
    }
}

/// The arguments of a program stand in one text, each quoted, with a blank between any two.
pub proof fn law_arguments_in_a_row(args: Seq<Seq<char>>, a: Seq<char>)
    ensures
        shell_params(seq![a]) == quoted(a),
        args.len() > 0 ==> shell_params(args.push(a)) == shell_params(args) + seq![' '] + quoted(a),
        shell_params(Seq::empty()) == Seq::<char>::empty(),
{
    reveal_strlit(" ");
    let q = |x: Seq<char>| quoted(x);
    assert(" "@ =~= seq![' ']);
    assert(seq![a].map_values(q) =~= seq![quoted(a)]);
    let all = args.push(a).map_values(q);
    assert(all.drop_last() =~= args.map_values(q));
    assert(Seq::<Seq<char>>::empty().map_values(q) =~= Seq::empty());
    reveal_with_fuel(text::joined, 2);
}

} // verus!
