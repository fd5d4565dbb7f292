//! The daemon's decisions: which operation a request asks for, and when to stop.
//!
//! Accepting connections, running sessions and the timer are the program's own
//! business.
use vstd::prelude::*;
use vstd::string::StringExecFns;
use crate::ipc::{opt_view, Message, MessageModel};

verus! {

/// An operation a client asks the daemon for.
pub enum Request {
    NewSession { name: Option<String>, command: Option<String>, cols: u16, rows: u16 },
    KillSession { name: String },
    ListSessions,
    SendData { name: String, data: Vec<u8> },
    ViewScreen { name: String },
    ResizePty { name: String, cols: u16, rows: u16 },
    KillServer,
    Ping,
    /// A message that asks for no operation the daemon offers.
    Unsupported,
}

/// The abstract content of a [`Request`].
pub enum RequestModel {
    NewSession { name: Option<Seq<char>>, command: Option<Seq<char>>, cols: u16, rows: u16 },
    KillSession { name: Seq<char> },
    ListSessions,
    SendData { name: Seq<char>, data: Seq<u8> },
    ViewScreen { name: Seq<char> },
    ResizePty { name: Seq<char>, cols: u16, rows: u16 },
    KillServer,
    Ping,
    Unsupported,
}

impl View for Request {
    type V = RequestModel;

    open spec fn view(&self) -> RequestModel {
        match self {
            Request::NewSession { name, command, cols, rows } => RequestModel::NewSession {
                name: opt_view(*name),
                command: opt_view(*command),
                cols: *cols,
                rows: *rows,
            },
            Request::KillSession { name } => RequestModel::KillSession { name: name@ },
            Request::ListSessions => RequestModel::ListSessions,
            Request::SendData { name, data } => RequestModel::SendData { name: name@, data: data@ },
            Request::ViewScreen { name } => RequestModel::ViewScreen { name: name@ },
            Request::ResizePty { name, cols, rows } => RequestModel::ResizePty { name: name@, cols: *cols, rows: *rows },
            Request::KillServer => RequestModel::KillServer,
            Request::Ping => RequestModel::Ping,
            Request::Unsupported => RequestModel::Unsupported,
        }
    }
}

/// The operation a message asks for: creating, killing (hang-up), listing, sending
/// to, viewing and resizing (also on a window-size change) sessions, stopping the
/// daemon and pinging it; the `view` command asks for the screen as well. Replies
/// and other commands ask for nothing the daemon offers.
pub open spec fn request_spec(m: MessageModel) -> RequestModel {
    match m {
        MessageModel::Create { name, command, cols, rows } => RequestModel::NewSession { name, command, cols, rows },
        MessageModel::Hangup { name } => RequestModel::KillSession { name },
        MessageModel::ListSessions => RequestModel::ListSessions,
        MessageModel::SendData { name, data } => RequestModel::SendData { name, data },
        MessageModel::ViewScreen { name } => RequestModel::ViewScreen { name },
        MessageModel::ResizePty { name, cols, rows } => RequestModel::ResizePty { name, cols, rows },
        MessageModel::Winch { name, cols, rows } => RequestModel::ResizePty { name, cols, rows },
        MessageModel::KillServer => RequestModel::KillServer,
        MessageModel::Ping => RequestModel::Ping,
        MessageModel::Command { name, args } => if args == seq!["view"@] {
            RequestModel::ViewScreen { name }
        } else {
            RequestModel::Unsupported
        },
        _ => RequestModel::Unsupported,
    }
}

/// A request carries the sizes its message gives: a message that creates a session
/// asks for a new session with the message's name, command, width as its columns
/// and height as its rows; a resize or window-size message asks to resize the named
/// session to the message's width and height.
pub proof fn lemma_request_keeps_sizes(m: MessageModel)
    ensures
        m matches MessageModel::Create { name, command, cols, rows } ==> request_spec(m) matches RequestModel::NewSession {
            name: n,
            command: c,
            cols: w,
            rows: h,
        } && n == name && c == command && w == cols && h == rows,
        m matches MessageModel::ResizePty { name, cols, rows } ==> request_spec(m) matches RequestModel::ResizePty {
            name: n,
            cols: w,
            rows: h,
        } && n == name && w == cols && h == rows,
        m matches MessageModel::Winch { name, cols, rows } ==> request_spec(m) matches RequestModel::ResizePty {
            name: n,
            cols: w,
            rows: h,
        } && n == name && w == cols && h == rows,
{
}

/// Which operation each message asks for, with the fields it names: a hang-up kills
/// the named session, a listing lists, sending data sends those bytes to the named
/// session, viewing (or the `view` command) views the named session's screen,
/// stopping stops the daemon and a ping is answered; replies and other commands ask
/// for nothing the daemon offers.
pub proof fn lemma_request_kinds(m: MessageModel)
    ensures
        m matches MessageModel::Hangup { name } ==> request_spec(m) == (RequestModel::KillSession { name }),
        m is ListSessions ==> request_spec(m) is ListSessions,
        m matches MessageModel::SendData { name, data } ==> request_spec(m) == (RequestModel::SendData { name, data }),
        m matches MessageModel::ViewScreen { name } ==> request_spec(m) == (RequestModel::ViewScreen { name }),
        m is KillServer ==> request_spec(m) is KillServer,
        m is Ping ==> request_spec(m) is Ping,
        m matches MessageModel::Command { name, args } ==> request_spec(m) == (if args == seq!["view"@] {
            RequestModel::ViewScreen { name }
        } else {
            RequestModel::Unsupported
        }),
        m is Ack || m is Error || m is Created || m is SessionList || m is ScreenData || m is Pong
            ==> request_spec(m) is Unsupported,
{
}

/// The operation a message asks for (see [`request_spec`]).
pub fn request_of(msg: Message) -> (r: Request)
    ensures
        r@ == request_spec(msg@),
{
    match msg {
        Message::Create { name, command, cols, rows } => Request::NewSession { name, command, cols, rows },
        Message::Hangup { name } => Request::KillSession { name },
        Message::ListSessions => Request::ListSessions,
        Message::SendData { name, data } => Request::SendData { name, data },
        Message::ViewScreen { name } => Request::ViewScreen { name },
        Message::ResizePty { name, cols, rows } => Request::ResizePty { name, cols, rows },
        Message::Winch { name, cols, rows } => Request::ResizePty { name, cols, rows },
        Message::KillServer => Request::KillServer,
        Message::Ping => Request::Ping,
        Message::Command { name, args } => {
            let view = String::from_str("view");
            if args.len() == 1 && args[0] == view {
                assert(args@.map_values(|a: String| a@) =~= seq!["view"@]);
                Request::ViewScreen { name }
            } else {
                assert(args@.map_values(|a: String| a@) != seq!["view"@]) by {
                    if args@.map_values(|a: String| a@) == seq!["view"@] {
                        assert(args@.map_values(|a: String| a@).len() == 1);
                        assert(args@.map_values(|a: String| a@)[0] == args@[0]@);
                    }
                }
                Request::Unsupported
            }
        },
        _ => Request::Unsupported,
    }
}

/// The reply to a message that asks for no operation the daemon offers.
pub fn unsupported_reply() -> (m: Message)
    ensures
        m@ == (MessageModel::Error { message: "unsupported request"@ }),
{
    Message::Error { message: String::from_str("unsupported request") }
}

/// After dead sessions are reaped: whether the daemon stops (sessions ran before and
/// none is left) and whether sessions have run so far.
pub fn after_reap(had_sessions: bool, count: usize) -> (r: (bool, bool))
    ensures
        r.0 == (had_sessions && count == 0),
        r.1 == (had_sessions || count > 0),
{
    (had_sessions && count == 0, had_sessions || count > 0)
}

} // verus!
