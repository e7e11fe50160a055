//! How the service keeps a pipe open for the next client.
use vstd::prelude::*;
use crate::text;

verus! {

/// The size of the buffers of a pipe.
pub const PIPE_BUF_SIZE: u32 = 65_536;

/// How many clients can be connected at once.
pub const PIPE_MAX_INSTANCES: u32 = 254;

/// The pause before a failed step is tried again.
pub const RETRY_MILLIS: u64 = 500;

/// The full name of a pipe: names that begin with two backslashes are full already.
pub open spec fn pipe_path(pipe: Seq<char>) -> Seq<char> {
    if text::begins_with(pipe, "\\\\"@) {
        pipe
    } else {
        "\\\\.\\pipe\\"@ + pipe
    }
}

pub fn normalize_pipe_path(pipe: &str) -> (r: String)
    ensures
        r@ == pipe_path(pipe@),
{
    if text::starts_with(pipe, "\\\\") {
        text::copied(pipe)
    } else {
        let mut s = text::copied("\\\\.\\pipe\\");
        s.push_str(pipe);
        s
    }
}

/// A full name stays as it is.
pub proof fn law_pipe_path_stable(pipe: Seq<char>)
    ensures
        pipe_path(pipe_path(pipe)) == pipe_path(pipe),
{
    reveal_strlit("\\\\");
    reveal_strlit("\\\\.\\pipe\\");
    let p = pipe_path(pipe);
    if !text::begins_with(pipe, "\\\\"@) {
        assert(p.subrange(0, 2) =~= "\\\\"@);
        assert(text::stands_at(p, "\\\\"@, 0));
    }
}

/// What the listening loop waits for.
#[derive(Debug, Clone, Copy, PartialEq, Eq, Structural)]
pub enum ListenState {
    /// The first pipe is not there yet; `first` if it is asked for as the first of its name.
    Opening { first: bool },
    /// A pipe waits for a client.
    Listening,
    /// A client has come; the next pipe is being made, `retried` if for the second time.
    Replacing { retried: bool },
}

/// What came of the last step.
#[derive(Debug)]
pub enum ListenEvent {
    Done,
    Failed(String),
}

/// What the loop does next.
#[derive(Debug)]
pub enum ListenAction {
    /// Make a pipe, as the first of its name where asked for.
    Create { first: bool },
    /// Wait for a client.
    Connect,
    /// Pause, then do what the state asks for again.
    PauseThenRetry,
    /// A client is connected and the next pipe waits: serve the client, wait for the next.
    Serve,
    Stop(String),
}

pub open spec fn listen_step(
    s: ListenState,
    failed: Option<Seq<char>>,
    earlier: Seq<char>,
) -> (ListenState, ListenActionView) {
    match (s, failed) {
        (ListenState::Opening { first }, None) => (
            ListenState::Listening,
            ListenActionView::Connect,
        ),
        (ListenState::Opening { first: true }, Some(e)) => (
            ListenState::Opening { first: false },
            ListenActionView::Create { first: false },
        ),
        (ListenState::Opening { first: false }, Some(e)) => (
            s,
            ListenActionView::Stop("创建命名管道失败: "@ + earlier + "；重试: "@ + e),
        ),
        (ListenState::Listening, None) => (
            ListenState::Replacing { retried: false },
            ListenActionView::Create { first: false },
        ),
        (ListenState::Listening, Some(e)) => (s, ListenActionView::PauseThenRetry),
        (ListenState::Replacing { retried }, None) => (
            ListenState::Listening,
            ListenActionView::Serve,
        ),
        (ListenState::Replacing { retried: false }, Some(e)) => (
            ListenState::Replacing { retried: true },
            ListenActionView::PauseThenRetry,
        ),
        (ListenState::Replacing { retried: true }, Some(e)) => (
            s,
            ListenActionView::Stop("创建后续管道实例两次均失败: "@ + earlier + "; "@ + e),
        ),
    }
}

pub enum ListenActionView {
    Create { first: bool },
    Connect,
    PauseThenRetry,
    Serve,
    Stop(Seq<char>),
}

impl View for ListenAction {
    type V = ListenActionView;

    open spec fn view(&self) -> ListenActionView {
        match *self {
            ListenAction::Create { first } => ListenActionView::Create { first },
            ListenAction::Connect => ListenActionView::Connect,
            ListenAction::PauseThenRetry => ListenActionView::PauseThenRetry,
            ListenAction::Serve => ListenActionView::Serve,
            ListenAction::Stop(e) => ListenActionView::Stop(e@),
        }
    }
}

pub open spec fn event_view(e: ListenEvent) -> Option<Seq<char>> {
    match e {
        ListenEvent::Done => None,
        ListenEvent::Failed(s) => Some(s@),
    }
}

/// The next state and step; `earlier` is the error of the first of two tries.
pub fn pipe_accept_loop(s: ListenState, event: &ListenEvent, earlier: &str) -> (r: (
    ListenState,
    ListenAction,
))
    ensures
        (r.0, r.1@) == listen_step(s, event_view(*event), earlier@),
{
    match s {
        ListenState::Opening { first } => match event {
            ListenEvent::Done => (ListenState::Listening, ListenAction::Connect),
            ListenEvent::Failed(e) => {
                if first {
                    (
                        ListenState::Opening { first: false },
                        ListenAction::Create { first: false },
                    )
                } else {
                    let mut t = text::copied("创建命名管道失败: ");
                    t.push_str(earlier);
                    t.push_str("；重试: ");
                    t.push_str(e);
                    (s, ListenAction::Stop(t))
                }
            },
        },
        ListenState::Listening => match event {
            ListenEvent::Done => (
                ListenState::Replacing { retried: false },
                ListenAction::Create { first: false },
            ),
            ListenEvent::Failed(_) => (s, ListenAction::PauseThenRetry),
        },
        ListenState::Replacing { retried } => match event {
            ListenEvent::Done => (ListenState::Listening, ListenAction::Serve),
            ListenEvent::Failed(e) => {
                if !retried {
                    (ListenState::Replacing { retried: true }, ListenAction::PauseThenRetry)
                } else {
                    let mut t = text::copied("创建后续管道实例两次均失败: ");
                    t.push_str(earlier);
                    t.push_str("; ");
                    t.push_str(e);
                    (s, ListenAction::Stop(t))
                }
            },
        },
    }
}

/// A client is served only when the pipe for the next one is there, and listening stops only
/// after two failures in a row.
pub proof fn law_next_pipe_first(s: ListenState, failed: Option<Seq<char>>, earlier: Seq<char>)
    ensures
        listen_step(s, failed, earlier).1 is Serve ==> s is Replacing && failed is None,
        listen_step(s, failed, earlier).1 is Stop ==> failed is Some && (s
            == (ListenState::Replacing { retried: true }) || s == (ListenState::Opening {
            first: false,
        })),
{
}

/// What follows each step of listening: a pipe that was made waits, one that has a client is
/// replaced before the client is served, and a pipe is asked for as the first of its name once only.
pub proof fn law_steps_of_listening(e: Seq<char>, earlier: Seq<char>, first: bool, retried: bool)
    ensures
        listen_step(ListenState::Opening { first }, None, earlier) == (
            ListenState::Listening,
            ListenActionView::Connect,
        ),
        listen_step(ListenState::Opening { first: true }, Some(e), earlier) == (
            ListenState::Opening { first: false },
            ListenActionView::Create { first: false },
        ),
        listen_step(ListenState::Opening { first: false }, Some(e), earlier).1 is Stop,
        listen_step(ListenState::Listening, None, earlier) == (
            ListenState::Replacing { retried: false },
            ListenActionView::Create { first: false },
        ),
        listen_step(ListenState::Listening, Some(e), earlier) == (
            ListenState::Listening,
            ListenActionView::PauseThenRetry,
        ),
        listen_step(ListenState::Replacing { retried }, None, earlier) == (
            ListenState::Listening,
            ListenActionView::Serve,
        ),
        listen_step(ListenState::Replacing { retried: false }, Some(e), earlier) == (
            ListenState::Replacing { retried: true },
            ListenActionView::PauseThenRetry,
        ),
        listen_step(ListenState::Replacing { retried: true }, Some(e), earlier).1 is Stop,
{
}

} // verus!
