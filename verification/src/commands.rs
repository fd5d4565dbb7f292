//! What the command-line client asks the daemon for, and how it reads the replies.
//!
//! Sending a request and printing the outcome are the program's own business; the
//! library decides which request a command line makes and what a reply means.
use vstd::prelude::*;
use vstd::string::StringExecFns;
use crate::escape::{unescape, unescape_spec};
use crate::ipc::{Message, MessageModel};
use crate::session::{strings_view, SessionInfoModel};
use crate::text::{string_push, string_push_str};

verus! {

/// The words joined by single spaces.
pub open spec fn join_words(ws: Seq<Seq<char>>) -> Seq<char>
    decreases ws.len(),
{
    if ws.len() == 0 {
        Seq::<char>::empty()
    } else if ws.len() == 1 {
        ws[0]
    } else {
        join_words(ws.drop_last()) + seq![' '] + ws.last()
    }
}

/// A request for a running session given with `-X`.
pub enum ExecPlan {
    /// Send the request and report its reply.
    Request(Message),
    /// Ask for the screen and write it to a file (`-` for standard output).
    Hardcopy { request: Message, file: String },
}

/// The abstract content of an [`ExecPlan`].
pub enum ExecPlanModel {
    Request(MessageModel),
    Hardcopy { request: MessageModel, file: Seq<char> },
}

impl View for ExecPlan {
    type V = ExecPlanModel;

    open spec fn view(&self) -> ExecPlanModel {
        match self {
            ExecPlan::Request(m) => ExecPlanModel::Request(m@),
            ExecPlan::Hardcopy { request, file } => ExecPlanModel::Hardcopy { request: request@, file: file@ },
        }
    }
}

/// The text of the error for a missing session name.
pub open spec fn need_session_text() -> Seq<char> {
    "session name required (use -S)"@
}

/// The text of the error for a missing command.
pub open spec fn need_command_text() -> Seq<char> {
    "command required (e.g., stuff, resize, view, hardcopy, quit)"@
}

/// The text of the error for `stuff` without text.
pub open spec fn need_stuff_text() -> Seq<char> {
    "stuff requires text argument"@
}

/// The text of the error for a reply of the wrong kind.
pub open spec fn unexpected_text() -> Seq<char> {
    "unexpected response"@
}

/// What `-X` does with a session name and command words: `stuff` sends the rest of
/// the words, joined by spaces and unescaped, as raw data; `hardcopy` asks for the
/// screen to write it to the named file (standard output by default); any other
/// command is sent as it is.
pub open spec fn exec_plan_spec(session: Option<Seq<char>>, args: Seq<Seq<char>>) -> Result<ExecPlanModel, Seq<char>> {
    match session {
        None => Err(need_session_text()),
        Some(name) => if args.len() == 0 {
            Err(need_command_text())
        } else if args[0] == "stuff"@ {
            if args.len() == 1 {
                Err(need_stuff_text())
            } else {
                Ok(
                    ExecPlanModel::Request(
                        MessageModel::SendData { name, data: unescape_spec(join_words(args.skip(1))) },
                    ),
                )
            }
        } else if args[0] == "hardcopy"@ {
            Ok(
                ExecPlanModel::Hardcopy {
                    request: MessageModel::Command { name, args: seq!["view"@] },
                    file: if args.len() > 1 {
                        args[1]
                    } else {
                        "-"@
                    },
                },
            )
        } else {
            Ok(ExecPlanModel::Request(MessageModel::Command { name, args }))
        },
    }
}

/// What `-X` asks for. Without a session name, or without a command, it fails. `stuff`
/// with one text sends that text's bytes after escapes are resolved, and with two
/// texts sends them joined by one space; `stuff` alone fails. `hardcopy` asks for the
/// screen (the `view` command) to write to the file given, or to standard output
/// (`-`) when none is. Any other command is sent with all its words.
pub proof fn lemma_exec_plans(session: Option<Seq<char>>, args: Seq<Seq<char>>, a: Seq<char>, b: Seq<char>)
    ensures
        session is None ==> exec_plan_spec(session, args) == Err::<ExecPlanModel, Seq<char>>(need_session_text()),
        session matches Some(name) ==> {
            &&& args.len() == 0 ==> exec_plan_spec(session, args) == Err::<ExecPlanModel, Seq<char>>(need_command_text())
            &&& exec_plan_spec(session, seq!["stuff"@]) == Err::<ExecPlanModel, Seq<char>>(need_stuff_text())
            &&& exec_plan_spec(session, seq!["stuff"@, a]) == Ok::<ExecPlanModel, Seq<char>>(
                ExecPlanModel::Request(MessageModel::SendData { name, data: unescape_spec(a) }),
            )
            &&& exec_plan_spec(session, seq!["stuff"@, a, b]) == Ok::<ExecPlanModel, Seq<char>>(
                ExecPlanModel::Request(MessageModel::SendData { name, data: unescape_spec(a + seq![' '] + b) }),
            )
            &&& exec_plan_spec(session, seq!["hardcopy"@]) == Ok::<ExecPlanModel, Seq<char>>(
                ExecPlanModel::Hardcopy { request: MessageModel::Command { name, args: seq!["view"@] }, file: "-"@ },
            )
            &&& exec_plan_spec(session, seq!["hardcopy"@, a]) == Ok::<ExecPlanModel, Seq<char>>(
                ExecPlanModel::Hardcopy { request: MessageModel::Command { name, args: seq!["view"@] }, file: a },
            )
            &&& args.len() > 0 && args[0] != "stuff"@ && args[0] != "hardcopy"@ ==> exec_plan_spec(session, args)
                == Ok::<ExecPlanModel, Seq<char>>(ExecPlanModel::Request(MessageModel::Command { name, args }))
        },
{
    let s1 = seq!["stuff"@, a];
    assert(s1.skip(1) =~= seq![a]);
    assert(join_words(seq![a]) == a);
    let s2 = seq!["stuff"@, a, b];
    assert(s2.skip(1) =~= seq![a, b]);
    assert(seq![a, b].drop_last() =~= seq![a]);
    assert(join_words(seq![a, b]) == a + seq![' '] + b);
    assert(seq!["hardcopy"@, a][1] == a);
    assert(seq!["stuff"@][0] == "stuff"@);
    assert(seq!["hardcopy"@][0] == "hardcopy"@);
    assert(s1[0] == "stuff"@ && s2[0] == "stuff"@ && seq!["hardcopy"@, a][0] == "hardcopy"@);
    reveal_strlit("stuff");
    reveal_strlit("hardcopy");
    assert("stuff"@ != "hardcopy"@) by {
        assert("stuff"@[0] != "hardcopy"@[0]);
    }
}

/// The words from position `from` on, joined by single spaces.
fn join_from(args: &Vec<String>, from: usize) -> (s: String)
    requires
        from < args@.len(),
    ensures
        s@ == join_words(strings_view(args@).skip(from as int)),
{
    let ghost sv = strings_view(args@);
    let n = args.len();
    let mut s = args[from].clone();
    let mut i: usize = from + 1;
    proof {
        assert(sv.skip(from as int).take(1) =~= seq![sv[from as int]]);
        assert(join_words(sv.skip(from as int).take(1)) == sv[from as int]);
    }
    while i < args.len()
        invariant
            from < i <= args@.len(),
            sv == strings_view(args@),
            s@ == join_words(sv.skip(from as int).take(i - from)),
        decreases args@.len() - i,
    {
        string_push(&mut s, ' ');
        string_push_str(&mut s, args[i].as_str());
        proof {
            let t = sv.skip(from as int).take(i + 1 - from);
            assert(t.drop_last() =~= sv.skip(from as int).take(i - from));
            assert(t.last() == args@[i as int]@);
            assert(s@ =~= join_words(t));
        }
        i = i + 1;
    }
    assert(sv.skip(from as int).take(args@.len() - from) =~= sv.skip(from as int));
    s
}

/// The session name a command needs, or the error for a missing one.
pub fn session_name(session: &Option<String>) -> (r: Result<String, String>)
    ensures
        match session {
            Some(n) => r matches Ok(x) && x@ == n@,
            None => r matches Err(x) && x@ == need_session_text(),
        },
{
    match session {
        Some(n) => Ok(n.clone()),
        None => Err(String::from_str("session name required (use -S)")),
    }
}

/// Decides the request `-X` makes (see [`exec_plan_spec`]).
pub fn plan_exec(session: &Option<String>, args: &Vec<String>) -> (r: Result<ExecPlan, String>)
    ensures
        match exec_plan_spec(crate::ipc::opt_view(*session), strings_view(args@)) {
            Ok(p) => r matches Ok(x) && x@ == p,
            Err(e) => r matches Err(x) && x@ == e,
        },
{
    let name = match session {
        Some(n) => n.clone(),
        None => {
            return Err(String::from_str("session name required (use -S)"));
        },
    };
    if args.len() == 0 {
        return Err(String::from_str("command required (e.g., stuff, resize, view, hardcopy, quit)"));
    }
    let stuff = String::from_str("stuff");
    let hardcopy = String::from_str("hardcopy");
    if args[0] == stuff {
        if args.len() == 1 {
            return Err(String::from_str("stuff requires text argument"));
        }
        let text = join_from(args, 1);
        let data = unescape(text.as_str());
        return Ok(ExecPlan::Request(Message::SendData { name, data }));
    }
    if args[0] == hardcopy {
        let file = if args.len() > 1 {
            args[1].clone()
        } else {
            String::from_str("-")
        };
        let mut view_args: Vec<String> = Vec::new();
        view_args.push(String::from_str("view"));
        assert(view_args@.map_values(|a: String| a@) =~= seq!["view"@]);
        return Ok(ExecPlan::Hardcopy { request: Message::Command { name, args: view_args }, file });
    }
    let all = args.clone();
    assert(all@ =~= args@) by {
        assert forall|i: int| 0 <= i < args@.len() implies all@[i] == args@[i] by {
            assert(vstd::pervasive::cloned::<String>(args@[i], all@[i]));
        }
    }
    Ok(ExecPlan::Request(Message::Command { name, args: all }))
}

/// The outcome of a reply that should carry one kind of answer: what the answer
/// gives, the error message of an error reply, or the unexpected-reply error.
pub enum Outcome {
    Done(Option<String>),
    Failed(String),
}

/// The reply to creating a session: its name, or the daemon's error.
pub open spec fn created_reply(m: MessageModel) -> Result<Seq<char>, Seq<char>> {
    match m {
        MessageModel::Created { name } => Ok(name),
        MessageModel::Error { message } => Err(message),
        _ => Err(unexpected_text()),
    }
}

/// The error of an error reply, or the unexpected-reply error.
fn failure(resp: &Message) -> (e: String)
    ensures
        e@ == (match resp@ {
            MessageModel::Error { message } => message,
            _ => unexpected_text(),
        }),
{
    match resp {
        Message::Error { message } => message.clone(),
        _ => String::from_str("unexpected response"),
    }
}

/// Reads the reply to creating a session (see [`created_reply`]).
pub fn reply_created(resp: &Message) -> (r: Result<String, String>)
    ensures
        match created_reply(resp@) {
            Ok(n) => r matches Ok(x) && x@ == n,
            Err(e) => r matches Err(x) && x@ == e,
        },
{
    match resp {
        Message::Created { name } => Ok(name.clone()),
        _ => Err(failure(resp)),
    }
}

/// The reply carrying a screen: its content, or the daemon's error.
pub open spec fn screen_reply(m: MessageModel) -> Result<Seq<char>, Seq<char>> {
    match m {
        MessageModel::ScreenData { content, .. } => Ok(content),
        MessageModel::Error { message } => Err(message),
        _ => Err(unexpected_text()),
    }
}

/// Reads a reply that should carry a screen (see [`screen_reply`]).
pub fn reply_screen(resp: &Message) -> (r: Result<String, String>)
    ensures
        match screen_reply(resp@) {
            Ok(n) => r matches Ok(x) && x@ == n,
            Err(e) => r matches Err(x) && x@ == e,
        },
{
    match resp {
        Message::ScreenData { content, .. } => Ok(content.clone()),
        _ => Err(failure(resp)),
    }
}

/// The reply to a command given with `-X`: nothing to show after an
/// acknowledgement, the screen when one comes back, or the daemon's error.
pub open spec fn exec_reply(m: MessageModel) -> Result<Option<Seq<char>>, Seq<char>> {
    match m {
        MessageModel::Ack => Ok(None),
        MessageModel::ScreenData { content, .. } => Ok(Some(content)),
        MessageModel::Error { message } => Err(message),
        _ => Err(unexpected_text()),
    }
}

/// Reads the reply to a command given with `-X` (see [`exec_reply`]).
pub fn reply_exec(resp: &Message) -> (r: Result<Option<String>, String>)
    ensures
        match exec_reply(resp@) {
            Ok(None) => r matches Ok(None),
            Ok(Some(c)) => r matches Ok(Some(x)) && x@ == c,
            Err(e) => r matches Err(x) && x@ == e,
        },
{
    match resp {
        Message::Ack => Ok(None),
        Message::ScreenData { content, .. } => Ok(Some(content.clone())),
        _ => Err(failure(resp)),
    }
}

/// The reply to stopping the daemon: the confirmation to show, or the error.
pub open spec fn stop_reply(m: MessageModel) -> Result<Seq<char>, Seq<char>> {
    match m {
        MessageModel::Ack => Ok("daemon stopped"@),
        MessageModel::Error { message } => Err(message),
        _ => Err(unexpected_text()),
    }
}

/// Reads the reply to stopping the daemon (see [`stop_reply`]).
pub fn reply_stop(resp: &Message) -> (r: Result<String, String>)
    ensures
        match stop_reply(resp@) {
            Ok(n) => r matches Ok(x) && x@ == n,
            Err(e) => r matches Err(x) && x@ == e,
        },
{
    match resp {
        Message::Ack => Ok(String::from_str("daemon stopped")),
        _ => Err(failure(resp)),
    }
}

/// The reply to a ping: `pong`, and any other reply is unexpected (an error reply
/// included).
pub open spec fn ping_reply(m: MessageModel) -> Result<Seq<char>, Seq<char>> {
    match m {
        MessageModel::Pong => Ok("pong"@),
        _ => Err(unexpected_text()),
    }
}

/// Reads the reply to a ping (see [`ping_reply`]).
pub fn reply_ping(resp: &Message) -> (r: Result<String, String>)
    ensures
        match ping_reply(resp@) {
            Ok(n) => r matches Ok(x) && x@ == n,
            Err(e) => r matches Err(x) && x@ == e,
        },
{
    match resp {
        Message::Pong => Ok(String::from_str("pong")),
        _ => Err(String::from_str("unexpected response")),
    }
}

/// One line of the session list: `name: command [running]` or `[dead]`.
pub open spec fn session_line(s: SessionInfoModel) -> Seq<char> {
    s.name + ": "@ + s.command + " ["@ + (if s.alive {
        "running"@
    } else {
        "dead"@
    }) + "]"@
}

/// The reply to listing sessions: the lines to show (`No sessions` when there is
/// none), or the daemon's error.
pub open spec fn list_reply(m: MessageModel) -> Result<Seq<Seq<char>>, Seq<char>> {
    match m {
        MessageModel::SessionList { sessions } => if sessions.len() == 0 {
            Ok(seq!["No sessions"@])
        } else {
            Ok(sessions.map_values(|s: SessionInfoModel| session_line(s)))
        },
        MessageModel::Error { message } => Err(message),
        _ => Err(unexpected_text()),
    }
}

/// Reads the reply to listing sessions (see [`list_reply`]).
pub fn reply_list(resp: &Message) -> (r: Result<Vec<String>, String>)
    ensures
        match list_reply(resp@) {
            Ok(lines) => r matches Ok(x) && strings_view(x@) == lines,
            Err(e) => r matches Err(x) && x@ == e,
        },
{
    match resp {
        Message::SessionList { sessions } => {
            let mut lines: Vec<String> = Vec::new();
            if sessions.len() == 0 {
                lines.push(String::from_str("No sessions"));
                assert(strings_view(lines@) =~= seq!["No sessions"@]);
                return Ok(lines);
            }
            let ghost sv = sessions@.map_values(|s: crate::session::SessionInfo| s@);
            let mut i: usize = 0;
            while i < sessions.len()
                invariant
                    i <= sessions@.len(),
                    sv == sessions@.map_values(|s: crate::session::SessionInfo| s@),
                    strings_view(lines@) == sv.take(i as int).map_values(|s: SessionInfoModel| session_line(s)),
                decreases sessions@.len() - i,
            {
                let s = &sessions[i];
                let mut line = s.name.clone();
                string_push_str(&mut line, ": ");
                string_push_str(&mut line, s.command.as_str());
                string_push_str(&mut line, " [");
                if s.alive {
                    string_push_str(&mut line, "running");
                } else {
                    string_push_str(&mut line, "dead");
                }
                string_push_str(&mut line, "]");
                assert(line@ == session_line(sv[i as int]));
                let ghost before = lines@;
                let ghost lv = line@;
                lines.push(line);
                assert(strings_view(lines@) =~= strings_view(before).push(lv));
                assert(sv.take(i + 1).map_values(|s: SessionInfoModel| session_line(s)) =~= sv.take(i as int).map_values(
                    |s: SessionInfoModel| session_line(s),
                ).push(session_line(sv[i as int])));
                i = i + 1;
            }
            assert(sv.take(sessions@.len() as int) =~= sv);
            Ok(lines)
        },
        _ => Err(failure(resp)),
    }
}


/// How replies are read: an error reply gives its message as the error for every kind
/// of request; a session list gives one line per session, in order, made of the
/// session's name, `: `, its command and ` [running]` or ` [dead]`, or the single
/// line `No sessions`; the screen comes back as its content; creating gives the name.
pub proof fn lemma_replies(m: MessageModel)
    ensures
        m matches MessageModel::Error { message } ==> {
            &&& created_reply(m) == Err::<Seq<char>, Seq<char>>(message)
            &&& screen_reply(m) == Err::<Seq<char>, Seq<char>>(message)
            &&& exec_reply(m) == Err::<Option<Seq<char>>, Seq<char>>(message)
            &&& stop_reply(m) == Err::<Seq<char>, Seq<char>>(message)
            &&& list_reply(m) == Err::<Seq<Seq<char>>, Seq<char>>(message)
        },
        m matches MessageModel::SessionList { sessions } ==> list_reply(m) matches Ok(lines) && {
            &&& sessions.len() == 0 ==> lines == seq!["No sessions"@]
            &&& sessions.len() > 0 ==> lines.len() == sessions.len() && forall|i: int|
                0 <= i < sessions.len() ==> #[trigger] lines[i] == sessions[i].name + ": "@ + sessions[i].command
                    + (if sessions[i].alive { " [running]"@ } else { " [dead]"@ })
        },
        m matches MessageModel::ScreenData { content, .. } ==> screen_reply(m) == Ok::<Seq<char>, Seq<char>>(content)
            && exec_reply(m) == Ok::<Option<Seq<char>>, Seq<char>>(Some(content)),
        m matches MessageModel::Created { name } ==> created_reply(m) == Ok::<Seq<char>, Seq<char>>(name),
        m is Ack ==> exec_reply(m) == Ok::<Option<Seq<char>>, Seq<char>>(None),
{
    if let MessageModel::SessionList { sessions } = m {
        reveal_strlit(" [");
        reveal_strlit("]");
        reveal_strlit(" [running]");
        reveal_strlit(" [dead]");
        reveal_strlit("running");
        reveal_strlit("dead");
        assert(" ["@ + "running"@ + "]"@ =~= " [running]"@);
        assert(" ["@ + "dead"@ + "]"@ =~= " [dead]"@);
        assert forall|i: int| 0 <= i < sessions.len() implies session_line(sessions[i]) == sessions[i].name + ": "@
            + sessions[i].command + (if sessions[i].alive { " [running]"@ } else { " [dead]"@ }) by {
            let x = sessions[i];
            if x.alive {
                assert(x.name + ": "@ + x.command + " ["@ + "running"@ + "]"@ =~= x.name + ": "@ + x.command + (" ["@ + "running"@ + "]"@));
            } else {
                assert(x.name + ": "@ + x.command + " ["@ + "dead"@ + "]"@ =~= x.name + ": "@ + x.command + (" ["@ + "dead"@ + "]"@));
            }
        }
    }
}
} // verus!
