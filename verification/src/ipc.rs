//! Binary protocol for client and daemon communication.
//!
//! Each message travels as a 12-byte header (protocol revision, message type and
//! payload length, each four bytes little-endian) followed by a payload whose
//! layout depends on the type. Strings are a two-byte little-endian length and the
//! UTF-8 bytes; an absent optional string is the length `0xFFFF`.
use vstd::prelude::*;
use vstd::utf8::*;
use crate::consts::MAX_IPC_MESSAGE_SIZE;
use crate::session::{SessionInfo, SessionInfoModel};
use crate::text::{push_signed_decimal, signed_decimal, string_from_utf8, string_push, string_push_str};

verus! {

broadcast use vstd::utf8::encode_utf8_valid_utf8, vstd::utf8::encode_utf8_decode_utf8;

/// Protocol revision magic: the bytes `p`, `m`, `x` and the structure version 1,
/// most significant first (`0x706d_7801`).
pub const PROTOCOL_REVISION: i32 = 0x706d_7801;

pub const MSG_CREATE: i32 = 0;
pub const MSG_ERROR: i32 = 1;
pub const MSG_ATTACH: i32 = 2;
pub const MSG_CONT: i32 = 3;
pub const MSG_DETACH: i32 = 4;
pub const MSG_POW_DETACH: i32 = 5;
pub const MSG_WINCH: i32 = 6;
pub const MSG_HANGUP: i32 = 7;
pub const MSG_COMMAND: i32 = 8;
pub const MSG_QUERY: i32 = 9;
pub const MSG_SEND_DATA: i32 = 100;
pub const MSG_VIEW_SCREEN: i32 = 101;
pub const MSG_RESIZE_PTY: i32 = 102;
pub const MSG_KILL_SERVER: i32 = 103;
pub const MSG_PING: i32 = 104;
pub const MSG_LIST_SESSIONS: i32 = 105;
pub const MSG_OK: i32 = 200;
pub const MSG_CREATED: i32 = 201;
pub const MSG_SESSION_LIST: i32 = 202;
pub const MSG_SCREEN_DATA: i32 = 203;
pub const MSG_PONG: i32 = 204;

/// Size of the wire header in bytes.
pub const HEADER_SIZE: usize = 12;

/// Unified message type for bidirectional communication.
#[derive(Debug, Clone)]
pub enum Message {
    /// Create a new session.
    Create { name: Option<String>, command: Option<String>, cols: u16, rows: u16 },
    /// Error response with a human-readable message.
    Error { message: String },
    /// Terminal size changed.
    Winch { name: String, cols: u16, rows: u16 },
    /// Kill a session.
    Hangup { name: String },
    /// Execute a command on a session.
    Command { name: String, args: Vec<String> },
    /// Send raw bytes to a session's PTY.
    SendData { name: String, data: Vec<u8> },
    /// Request the current screen content.
    ViewScreen { name: String },
    /// Resize a session's PTY.
    ResizePty { name: String, cols: u16, rows: u16 },
    /// Shut the daemon down.
    KillServer,
    /// Health check.
    Ping,
    /// List all sessions.
    ListSessions,
    /// Success with no payload.
    Ack,
    /// Session created, with its assigned name.
    Created { name: String },
    /// List of session info.
    SessionList { sessions: Vec<SessionInfo> },
    /// Screen content with cursor position.
    ScreenData { content: String, cursor_col: u16, cursor_row: u16 },
    /// Reply to `Ping`.
    Pong,
}

/// The abstract content of a [`Message`]: strings as character sequences.
pub enum MessageModel {
    Create { name: Option<Seq<char>>, command: Option<Seq<char>>, cols: u16, rows: u16 },
    Error { message: Seq<char> },
    Winch { name: Seq<char>, cols: u16, rows: u16 },
    Hangup { name: Seq<char> },
    Command { name: Seq<char>, args: Seq<Seq<char>> },
    SendData { name: Seq<char>, data: Seq<u8> },
    ViewScreen { name: Seq<char> },
    ResizePty { name: Seq<char>, cols: u16, rows: u16 },
    KillServer,
    Ping,
    ListSessions,
    Ack,
    Created { name: Seq<char> },
    SessionList { sessions: Seq<SessionInfoModel> },
    ScreenData { content: Seq<char>, cursor_col: u16, cursor_row: u16 },
    Pong,
}

/// The content of an optional string.
pub open spec fn opt_view(o: Option<String>) -> Option<Seq<char>> {
    match o {
        Some(s) => Some(s@),
        None => None,
    }
}

impl View for Message {
    type V = MessageModel;

    open spec fn view(&self) -> MessageModel {
        match self {
            Message::Create { name, command, cols, rows } => MessageModel::Create {
                name: opt_view(*name),
                command: opt_view(*command),
                cols: *cols,
                rows: *rows,
            },
            Message::Error { message } => MessageModel::Error { message: message@ },
            Message::Winch { name, cols, rows } => MessageModel::Winch {
                name: name@,
                cols: *cols,
                rows: *rows,
            },
            Message::Hangup { name } => MessageModel::Hangup { name: name@ },
            Message::Command { name, args } => MessageModel::Command {
                name: name@,
                args: args@.map_values(|a: String| a@),
            },
            Message::SendData { name, data } => MessageModel::SendData { name: name@, data: data@ },
            Message::ViewScreen { name } => MessageModel::ViewScreen { name: name@ },
            Message::ResizePty { name, cols, rows } => MessageModel::ResizePty {
                name: name@,
                cols: *cols,
                rows: *rows,
            },
            Message::KillServer => MessageModel::KillServer,
            Message::Ping => MessageModel::Ping,
            Message::ListSessions => MessageModel::ListSessions,
            Message::Ack => MessageModel::Ack,
            Message::Created { name } => MessageModel::Created { name: name@ },
            Message::SessionList { sessions } => MessageModel::SessionList {
                sessions: sessions@.map_values(|s: SessionInfo| s@),
            },
            Message::ScreenData { content, cursor_col, cursor_row } => MessageModel::ScreenData {
                content: content@,
                cursor_col: *cursor_col,
                cursor_row: *cursor_row,
            },
            Message::Pong => MessageModel::Pong,
        }
    }
}

/// Which field held bytes that are not UTF-8.
#[derive(Debug, Clone, Copy, PartialEq, Eq, Structural)]
pub enum Utf8Field {
    /// A length-prefixed string field.
    StringField,
    /// The text of an error message.
    ErrorMessage,
    /// A session name that fills the whole payload.
    SessionName,
    /// The content of screen data.
    ScreenData,
}

/// Why a frame or payload was refused.
#[derive(Debug, Clone, Copy, PartialEq, Eq, Structural)]
pub enum ProtocolError {
    /// The header does not start with [`PROTOCOL_REVISION`].
    BadRevision { found: i32 },
    /// The payload is longer than [`MAX_IPC_MESSAGE_SIZE`].
    TooLarge,
    /// The payload ended before a field was complete.
    UnexpectedEnd,
    /// A text field is not UTF-8.
    InvalidUtf8 { field: Utf8Field },
    /// Screen data shorter than its four-byte cursor trailer.
    ScreenDataTooShort,
    /// The message type is not one of the known `MSG_*` values.
    UnknownType { msg_type: i32 },
}

// ── Little-endian integers ───────────────────────────────────────────

/// The `n` low bytes of `x`, least significant first.
pub open spec fn le_bytes(x: nat, n: nat) -> Seq<u8>
    decreases n,
{
    if n == 0 {
        Seq::<u8>::empty()
    } else {
        seq![(x % 256) as u8] + le_bytes(x / 256, (n - 1) as nat)
    }
}

/// The number that little-endian bytes denote.
pub open spec fn le_value(s: Seq<u8>) -> nat
    decreases s.len(),
{
    if s.len() == 0 {
        0
    } else {
        s[0] as nat + 256 * le_value(s.drop_first())
    }
}

/// 256 to the power `n`.
pub open spec fn pow256(n: nat) -> nat
    decreases n,
{
    if n == 0 {
        1
    } else {
        256 * pow256((n - 1) as nat)
    }
}

/// The two's-complement reading of a 32-bit pattern.
pub open spec fn i32_of_u32(u: nat) -> int {
    if u < 0x8000_0000 {
        u as int
    } else {
        u as int - 0x1_0000_0000
    }
}

// ── Payload layout ───────────────────────────────────────────────────

/// A string field: two-byte length (truncated to 16 bits) and UTF-8 bytes.
pub open spec fn str_field(s: Seq<char>) -> Seq<u8> {
    le_bytes(encode_utf8(s).len() % 65536, 2) + encode_utf8(s)
}

/// An optional string field: `0xFFFF` for none, otherwise a string field.
pub open spec fn opt_str_field(o: Option<Seq<char>>) -> Seq<u8> {
    match o {
        None => seq![0xFFu8, 0xFFu8],
        Some(s) => str_field(s),
    }
}

/// Consecutive string fields.
pub open spec fn str_fields(args: Seq<Seq<char>>) -> Seq<u8>
    decreases args.len(),
{
    if args.len() == 0 {
        Seq::<u8>::empty()
    } else {
        str_fields(args.drop_last()) + str_field(args.last())
    }
}

/// One session record: name, command, creation time (eight bytes) and a liveness byte.
pub open spec fn session_field(s: SessionInfoModel) -> Seq<u8> {
    str_field(s.name) + str_field(s.command) + le_bytes(s.created_at as nat, 8) + seq![
        if s.alive {
            1u8
        } else {
            0u8
        },
    ]
}

/// Consecutive session records.
pub open spec fn session_fields(ss: Seq<SessionInfoModel>) -> Seq<u8>
    decreases ss.len(),
{
    if ss.len() == 0 {
        Seq::<u8>::empty()
    } else {
        session_fields(ss.drop_last()) + session_field(ss.last())
    }
}

/// The wire type of a message.
pub open spec fn msg_type_of(m: MessageModel) -> i32 {
    match m {
        MessageModel::Create { .. } => MSG_CREATE,
        MessageModel::Error { .. } => MSG_ERROR,
        MessageModel::Winch { .. } => MSG_WINCH,
        MessageModel::Hangup { .. } => MSG_HANGUP,
        MessageModel::Command { .. } => MSG_COMMAND,
        MessageModel::SendData { .. } => MSG_SEND_DATA,
        MessageModel::ViewScreen { .. } => MSG_VIEW_SCREEN,
        MessageModel::ResizePty { .. } => MSG_RESIZE_PTY,
        MessageModel::KillServer => MSG_KILL_SERVER,
        MessageModel::Ping => MSG_PING,
        MessageModel::ListSessions => MSG_LIST_SESSIONS,
        MessageModel::Ack => MSG_OK,
        MessageModel::Created { .. } => MSG_CREATED,
        MessageModel::SessionList { .. } => MSG_SESSION_LIST,
        MessageModel::ScreenData { .. } => MSG_SCREEN_DATA,
        MessageModel::Pong => MSG_PONG,
    }
}

/// The payload bytes of a message.
pub open spec fn payload_of(m: MessageModel) -> Seq<u8> {
    match m {
        MessageModel::Create { name, command, cols, rows } => le_bytes(cols as nat, 2) + le_bytes(
            rows as nat,
            2,
        ) + opt_str_field(name) + opt_str_field(command),
        MessageModel::Error { message } => encode_utf8(message),
        MessageModel::Winch { name, cols, rows } => str_field(name) + le_bytes(cols as nat, 2)
            + le_bytes(rows as nat, 2),
        MessageModel::Hangup { name } => encode_utf8(name),
        MessageModel::Command { name, args } => str_field(name) + le_bytes(
            args.len() % 65536,
            2,
        ) + str_fields(args),
        MessageModel::SendData { name, data } => str_field(name) + data,
        MessageModel::ViewScreen { name } => encode_utf8(name),
        MessageModel::ResizePty { name, cols, rows } => str_field(name) + le_bytes(cols as nat, 2)
            + le_bytes(rows as nat, 2),
        MessageModel::Created { name } => encode_utf8(name),
        MessageModel::SessionList { sessions } => le_bytes(sessions.len() % 65536, 2)
            + session_fields(sessions),
        MessageModel::ScreenData { content, cursor_col, cursor_row } => encode_utf8(content)
            + le_bytes(cursor_col as nat, 2) + le_bytes(cursor_row as nat, 2),
        _ => Seq::<u8>::empty(),
    }
}

// ── Encoding ─────────────────────────────────────────────────────────

/// Appends the `n` low bytes of `x`, least significant first.
fn push_le(out: &mut Vec<u8>, x: u64, n: usize)
    requires
        n <= 8,
    ensures
        final(out)@ == old(out)@ + le_bytes(x as nat, n as nat),
{
    let mut v = x;
    let mut i: usize = 0;
    while i < n
        invariant
            i <= n,
            out@ + le_bytes(v as nat, (n - i) as nat) == old(out)@ + le_bytes(x as nat, n as nat),
        decreases n - i,
    {
        let ghost before = out@;
        out.push((v % 256) as u8);
        assert(le_bytes(v as nat, (n - i) as nat) == seq![(v % 256) as u8] + le_bytes(
            (v / 256) as nat,
            (n - i - 1) as nat,
        ));
        assert(before + (seq![(v % 256) as u8] + le_bytes((v / 256) as nat, (n - i - 1) as nat))
            =~= out@ + le_bytes((v / 256) as nat, (n - i - 1) as nat));
        v = v / 256;
        i = i + 1;
    }
    assert(out@ + le_bytes(v as nat, 0) =~= out@);
}

/// Appends bytes from a slice.
fn push_bytes(out: &mut Vec<u8>, data: &[u8])
    ensures
        final(out)@ == old(out)@ + data@,
{
    let mut i: usize = 0;
    while i < data.len()
        invariant
            i <= data@.len(),
            out@ == old(out)@ + data@.take(i as int),
        decreases data@.len() - i,
    {
        out.push(data[i]);
        assert(old(out)@ + data@.take(i + 1) =~= (old(out)@ + data@.take(i as int)).push(
            data@[i as int],
        ));
        i = i + 1;
    }
    assert(data@.take(data@.len() as int) =~= data@);
}

/// Write a length-prefixed string (u16-LE len + UTF-8 bytes).
fn write_str(buf: &mut Vec<u8>, s: &str)
    ensures
        final(buf)@ == old(buf)@ + str_field(s@),
{
    let b = s.as_bytes();
    push_le(buf, (b.len() % 65536) as u64, 2);
    push_bytes(buf, b);
    assert(old(buf)@ + le_bytes((b@.len() % 65536) as nat, 2) + b@ =~= old(buf)@ + str_field(
        s@,
    ));
}

/// Write an optional string: 0xFFFF = None, otherwise u16-LE len + bytes.
fn write_opt_str(buf: &mut Vec<u8>, s: Option<&str>)
    ensures
        final(buf)@ == old(buf)@ + opt_str_field(
            match s {
                Some(t) => Some(t@),
                None => None,
            },
        ),
{
    match s {
        None => {
            buf.push(0xFF);
            buf.push(0xFF);
            assert(buf@ =~= old(buf)@ + seq![0xFFu8, 0xFFu8]);
        },
        Some(t) => write_str(buf, t),
    }
}

/// Write an optional string held as `Option<String>`.
fn write_opt_string(buf: &mut Vec<u8>, s: &Option<String>)
    ensures
        final(buf)@ == old(buf)@ + opt_str_field(opt_view(*s)),
{
    match s {
        None => write_opt_str(buf, None),
        Some(t) => write_opt_str(buf, Some(t.as_str())),
    }
}

/// Encodes a message into its wire type and payload; every message can be encoded.
pub fn encode(msg: &Message) -> (r: Result<(i32, Vec<u8>), ProtocolError>)
    ensures
        r matches Ok(tp) && tp.0 == msg_type_of(msg@) && tp.1@ == payload_of(msg@),
{
    Ok(encode_parts(msg))
}

/// The wire type and payload of a message.
fn encode_parts(msg: &Message) -> (r: (i32, Vec<u8>))
    ensures
        r.0 == msg_type_of(msg@),
        r.1@ == payload_of(msg@),
{
    let mut p: Vec<u8> = Vec::new();
    match msg {
        Message::Create { name, command, cols, rows } => {
            push_le(&mut p, *cols as u64, 2);
            push_le(&mut p, *rows as u64, 2);
            write_opt_string(&mut p, name);
            write_opt_string(&mut p, command);
            assert(p@ =~= payload_of(msg@));
            (MSG_CREATE, p)
        },
        Message::Error { message } => {
            push_bytes(&mut p, message.as_str().as_bytes());
            assert(p@ =~= payload_of(msg@));
            (MSG_ERROR, p)
        },
        Message::Winch { name, cols, rows } => {
            write_str(&mut p, name.as_str());
            push_le(&mut p, *cols as u64, 2);
            push_le(&mut p, *rows as u64, 2);
            assert(p@ =~= payload_of(msg@));
            (MSG_WINCH, p)
        },
        Message::Hangup { name } => {
            push_bytes(&mut p, name.as_str().as_bytes());
            assert(p@ =~= payload_of(msg@));
            (MSG_HANGUP, p)
        },
        Message::Command { name, args } => {
            write_str(&mut p, name.as_str());
            push_le(&mut p, (args.len() % 65536) as u64, 2);
            let ghost head = p@;
            let ghost av = args@.map_values(|a: String| a@);
            let mut i: usize = 0;
            while i < args.len()
                invariant
                    i <= args@.len(),
                    av == args@.map_values(|a: String| a@),
                    p@ == head + str_fields(av.take(i as int)),
                decreases args@.len() - i,
            {
                write_str(&mut p, args[i].as_str());
                assert(av.take(i + 1).drop_last() =~= av.take(i as int));
                assert(av.take(i + 1).last() == args@[i as int]@);
                assert(head + str_fields(av.take(i + 1)) =~= head + str_fields(av.take(i as int))
                    + str_field(args@[i as int]@));
                i = i + 1;
            }
            assert(av.take(args@.len() as int) =~= av);
            assert(p@ =~= payload_of(msg@));
            (MSG_COMMAND, p)
        },
        Message::SendData { name, data } => {
            write_str(&mut p, name.as_str());
            push_bytes(&mut p, data.as_slice());
            assert(p@ =~= payload_of(msg@));
            (MSG_SEND_DATA, p)
        },
        Message::ViewScreen { name } => {
            push_bytes(&mut p, name.as_str().as_bytes());
            assert(p@ =~= payload_of(msg@));
            (MSG_VIEW_SCREEN, p)
        },
        Message::ResizePty { name, cols, rows } => {
            write_str(&mut p, name.as_str());
            push_le(&mut p, *cols as u64, 2);
            push_le(&mut p, *rows as u64, 2);
            assert(p@ =~= payload_of(msg@));
            (MSG_RESIZE_PTY, p)
        },
        Message::KillServer => (MSG_KILL_SERVER, p),
        Message::Ping => (MSG_PING, p),
        Message::ListSessions => (MSG_LIST_SESSIONS, p),
        Message::Ack => (MSG_OK, p),
        Message::Created { name } => {
            push_bytes(&mut p, name.as_str().as_bytes());
            assert(p@ =~= payload_of(msg@));
            (MSG_CREATED, p)
        },
        Message::SessionList { sessions } => {
            push_le(&mut p, (sessions.len() % 65536) as u64, 2);
            let ghost head = p@;
            let ghost sv = sessions@.map_values(|s: SessionInfo| s@);
            let mut i: usize = 0;
            while i < sessions.len()
                invariant
                    i <= sessions@.len(),
                    sv == sessions@.map_values(|s: SessionInfo| s@),
                    p@ == head + session_fields(sv.take(i as int)),
                decreases sessions@.len() - i,
            {
                let s = &sessions[i];
                let ghost before = p@;
                write_str(&mut p, s.name.as_str());
                write_str(&mut p, s.command.as_str());
                push_le(&mut p, s.created_at, 8);
                p.push(if s.alive { 1 } else { 0 });
                assert(p@ =~= before + session_field(s@));
                assert(sv.take(i + 1).drop_last() =~= sv.take(i as int));
                assert(sv.take(i + 1).last() == s@);
                assert(head + session_fields(sv.take(i + 1)) =~= head + session_fields(
                    sv.take(i as int),
                ) + session_field(s@));
                i = i + 1;
            }
            assert(sv.take(sessions@.len() as int) =~= sv);
            assert(p@ =~= payload_of(msg@));
            (MSG_SESSION_LIST, p)
        },
        Message::ScreenData { content, cursor_col, cursor_row } => {
            push_bytes(&mut p, content.as_str().as_bytes());
            push_le(&mut p, *cursor_col as u64, 2);
            push_le(&mut p, *cursor_row as u64, 2);
            assert(p@ =~= payload_of(msg@));
            (MSG_SCREEN_DATA, p)
        },
        Message::Pong => (MSG_PONG, p),
    }
}

// ── Decoding ─────────────────────────────────────────────────────────

/// Reads one byte at `pos`.
pub open spec fn take_u8(p: Seq<u8>, pos: int) -> Result<(u8, int), ProtocolError> {
    if pos + 1 > p.len() {
        Err(ProtocolError::UnexpectedEnd)
    } else {
        Ok((p[pos], pos + 1))
    }
}

/// Reads a two-byte little-endian integer at `pos`.
pub open spec fn take_u16(p: Seq<u8>, pos: int) -> Result<(u16, int), ProtocolError> {
    if pos + 2 > p.len() {
        Err(ProtocolError::UnexpectedEnd)
    } else {
        Ok((le_value(p.subrange(pos, pos + 2)) as u16, pos + 2))
    }
}

/// Reads an eight-byte little-endian integer at `pos`.
pub open spec fn take_u64(p: Seq<u8>, pos: int) -> Result<(u64, int), ProtocolError> {
    if pos + 8 > p.len() {
        Err(ProtocolError::UnexpectedEnd)
    } else {
        Ok((le_value(p.subrange(pos, pos + 8)) as u64, pos + 8))
    }
}

/// Reads `len` bytes of UTF-8 text at `pos`.
pub open spec fn take_text(p: Seq<u8>, pos: int, len: int) -> Result<(Seq<char>, int), ProtocolError> {
    if pos + len > p.len() {
        Err(ProtocolError::UnexpectedEnd)
    } else if !valid_utf8(p.subrange(pos, pos + len)) {
        Err(ProtocolError::InvalidUtf8 { field: Utf8Field::StringField })
    } else {
        Ok((decode_utf8(p.subrange(pos, pos + len)), pos + len))
    }
}

/// Reads a length-prefixed string at `pos`.
pub open spec fn take_str(p: Seq<u8>, pos: int) -> Result<(Seq<char>, int), ProtocolError> {
    match take_u16(p, pos) {
        Err(e) => Err(e),
        Ok((len, q)) => take_text(p, q, len as int),
    }
}

/// Reads an optional string at `pos` (`0xFFFF` stands for none).
pub open spec fn take_opt_str(p: Seq<u8>, pos: int) -> Result<(Option<Seq<char>>, int), ProtocolError> {
    match take_u16(p, pos) {
        Err(e) => Err(e),
        Ok((raw, q)) => if raw == 0xFFFF {
            Ok((None, q))
        } else {
            match take_text(p, q, raw as int) {
                Err(e) => Err(e),
                Ok((t, r)) => Ok((Some(t), r)),
            }
        },
    }
}

/// Reads `n` consecutive strings at `pos`.
pub open spec fn take_strs(p: Seq<u8>, pos: int, n: nat) -> Result<(Seq<Seq<char>>, int), ProtocolError>
    decreases n,
{
    if n == 0 {
        Ok((Seq::<Seq<char>>::empty(), pos))
    } else {
        match take_strs(p, pos, (n - 1) as nat) {
            Err(e) => Err(e),
            Ok((v, q)) => match take_str(p, q) {
                Err(e) => Err(e),
                Ok((t, r)) => Ok((v.push(t), r)),
            },
        }
    }
}

/// Reads one session record at `pos`.
pub open spec fn take_session(p: Seq<u8>, pos: int) -> Result<(SessionInfoModel, int), ProtocolError> {
    match take_str(p, pos) {
        Err(e) => Err(e),
        Ok((name, q1)) => match take_str(p, q1) {
            Err(e) => Err(e),
            Ok((command, q2)) => match take_u64(p, q2) {
                Err(e) => Err(e),
                Ok((created_at, q3)) => match take_u8(p, q3) {
                    Err(e) => Err(e),
                    Ok((alive, q4)) => Ok(
                        (
                            SessionInfoModel { name, command, created_at, alive: alive != 0 },
                            q4,
                        ),
                    ),
                },
            },
        },
    }
}

/// Reads `n` consecutive session records at `pos`.
pub open spec fn take_sessions(p: Seq<u8>, pos: int, n: nat) -> Result<(Seq<SessionInfoModel>, int), ProtocolError>
    decreases n,
{
    if n == 0 {
        Ok((Seq::<SessionInfoModel>::empty(), pos))
    } else {
        match take_sessions(p, pos, (n - 1) as nat) {
            Err(e) => Err(e),
            Ok((v, q)) => match take_session(p, q) {
                Err(e) => Err(e),
                Ok((t, r)) => Ok((v.push(t), r)),
            },
        }
    }
}

/// The whole payload read as UTF-8 text.
pub open spec fn whole_text(p: Seq<u8>, field: Utf8Field) -> Result<Seq<char>, ProtocolError> {
    if valid_utf8(p) {
        Ok(decode_utf8(p))
    } else {
        Err(ProtocolError::InvalidUtf8 { field })
    }
}

/// The message a wire type and payload denote, or why they do not denote one.
/// Bytes after the last field a type reads are ignored.
pub open spec fn decode_spec(msg_type: i32, p: Seq<u8>) -> Result<MessageModel, ProtocolError> {
    if msg_type == MSG_CREATE {
        match take_u16(p, 0) {
            Err(e) => Err(e),
            Ok((cols, q1)) => match take_u16(p, q1) {
                Err(e) => Err(e),
                Ok((rows, q2)) => match take_opt_str(p, q2) {
                    Err(e) => Err(e),
                    Ok((name, q3)) => match take_opt_str(p, q3) {
                        Err(e) => Err(e),
                        Ok((command, _q4)) => Ok(MessageModel::Create { name, command, cols, rows }),
                    },
                },
            },
        }
    } else if msg_type == MSG_ERROR {
        match whole_text(p, Utf8Field::ErrorMessage) {
            Err(e) => Err(e),
            Ok(message) => Ok(MessageModel::Error { message }),
        }
    } else if msg_type == MSG_WINCH || msg_type == MSG_RESIZE_PTY {
        match take_str(p, 0) {
            Err(e) => Err(e),
            Ok((name, q1)) => match take_u16(p, q1) {
                Err(e) => Err(e),
                Ok((cols, q2)) => match take_u16(p, q2) {
                    Err(e) => Err(e),
                    Ok((rows, _q3)) => if msg_type == MSG_WINCH {
                        Ok(MessageModel::Winch { name, cols, rows })
                    } else {
                        Ok(MessageModel::ResizePty { name, cols, rows })
                    },
                },
            },
        }
    } else if msg_type == MSG_HANGUP || msg_type == MSG_VIEW_SCREEN || msg_type == MSG_CREATED {
        match whole_text(p, Utf8Field::SessionName) {
            Err(e) => Err(e),
            Ok(name) => if msg_type == MSG_HANGUP {
                Ok(MessageModel::Hangup { name })
            } else if msg_type == MSG_VIEW_SCREEN {
                Ok(MessageModel::ViewScreen { name })
            } else {
                Ok(MessageModel::Created { name })
            },
        }
    } else if msg_type == MSG_COMMAND {
        match take_str(p, 0) {
            Err(e) => Err(e),
            Ok((name, q1)) => match take_u16(p, q1) {
                Err(e) => Err(e),
                Ok((nargs, q2)) => match take_strs(p, q2, nargs as nat) {
                    Err(e) => Err(e),
                    Ok((args, _q3)) => Ok(MessageModel::Command { name, args }),
                },
            },
        }
    } else if msg_type == MSG_SEND_DATA {
        match take_str(p, 0) {
            Err(e) => Err(e),
            Ok((name, q1)) => Ok(MessageModel::SendData { name, data: p.subrange(q1, p.len() as int) }),
        }
    } else if msg_type == MSG_KILL_SERVER {
        Ok(MessageModel::KillServer)
    } else if msg_type == MSG_PING {
        Ok(MessageModel::Ping)
    } else if msg_type == MSG_LIST_SESSIONS {
        Ok(MessageModel::ListSessions)
    } else if msg_type == MSG_OK {
        Ok(MessageModel::Ack)
    } else if msg_type == MSG_SESSION_LIST {
        match take_u16(p, 0) {
            Err(e) => Err(e),
            Ok((count, q1)) => match take_sessions(p, q1, count as nat) {
                Err(e) => Err(e),
                Ok((sessions, _q2)) => Ok(MessageModel::SessionList { sessions }),
            },
        }
    } else if msg_type == MSG_SCREEN_DATA {
        if p.len() < 4 {
            Err(ProtocolError::ScreenDataTooShort)
        } else {
            let n = p.len() as int;
            match whole_text(p.subrange(0, n - 4), Utf8Field::ScreenData) {
                Err(e) => Err(e),
                Ok(content) => Ok(
                    MessageModel::ScreenData {
                        content,
                        cursor_col: le_value(p.subrange(n - 4, n - 2)) as u16,
                        cursor_row: le_value(p.subrange(n - 2, n)) as u16,
                    },
                ),
            }
        }
    } else if msg_type == MSG_PONG {
        Ok(MessageModel::Pong)
    } else {
        Err(ProtocolError::UnknownType { msg_type })
    }
}

/// The view of a decode result.
pub open spec fn result_view(r: Result<Message, ProtocolError>) -> Result<MessageModel, ProtocolError> {
    match r {
        Ok(m) => Ok(m@),
        Err(e) => Err(e),
    }
}

/// Copies `data[from..to]` into a new vector.
fn copy_range(data: &[u8], from: usize, to: usize) -> (v: Vec<u8>)
    requires
        from <= to <= data@.len(),
    ensures
        v@ == data@.subrange(from as int, to as int),
{
    let mut v: Vec<u8> = Vec::new();
    let mut i = from;
    while i < to
        invariant
            from <= i <= to <= data@.len(),
            v@ == data@.subrange(from as int, i as int),
        decreases to - i,
    {
        v.push(data[i]);
        assert(data@.subrange(from as int, i + 1) =~= data@.subrange(from as int, i as int).push(
            data@[i as int],
        ));
        i = i + 1;
    }
    v
}

/// Text decoded from `bytes`, or the given error when they are not UTF-8.
fn text_or(bytes: Vec<u8>, field: Utf8Field) -> (r: Result<String, ProtocolError>)
    ensures
        match r {
            Ok(s) => valid_utf8(bytes@) && s@ == decode_utf8(bytes@),
            Err(e) => !valid_utf8(bytes@) && e == (ProtocolError::InvalidUtf8 { field }),
        },
{
    match string_from_utf8(bytes) {
        Some(s) => Ok(s),
        None => Err(ProtocolError::InvalidUtf8 { field }),
    }
}

/// Simple cursor for reading binary payloads.
struct Cursor<'a> {
    data: &'a [u8],
    pos: usize,
}

impl<'a> Cursor<'a> {
    fn new(data: &'a [u8]) -> (c: Self)
        ensures
            c.data@ == data@,
            c.pos == 0,
    {
        Cursor { data, pos: 0 }
    }

    fn remaining(&self) -> (r: &'a [u8])
        requires
            self.pos <= self.data@.len(),
        ensures
            r@ == self.data@.subrange(self.pos as int, self.data@.len() as int),
    {
        vstd::slice::slice_subrange(self.data, self.pos, self.data.len())
    }

    fn ensure(&self, n: usize) -> (r: Result<(), ProtocolError>)
        requires
            self.pos <= self.data@.len(),
        ensures
            r is Ok <==> self.pos + n <= self.data@.len(),
            r matches Err(e) ==> e == ProtocolError::UnexpectedEnd,
    {
        if n > self.data.len() - self.pos {
            Err(ProtocolError::UnexpectedEnd)
        } else {
            Ok(())
        }
    }

    fn read_u8(&mut self) -> (r: Result<u8, ProtocolError>)
        requires
            old(self).pos <= old(self).data@.len(),
        ensures
            final(self).data == old(self).data,
            final(self).pos <= final(self).data@.len(),
            match take_u8(old(self).data@, old(self).pos as int) {
                Ok((v, q)) => r == Ok::<u8, ProtocolError>(v) && final(self).pos == q,
                Err(e) => r == Err::<u8, ProtocolError>(e) && final(self).pos == old(self).pos,
            },
    {
        if let Err(e) = self.ensure(1) {
            return Err(e);
        }
        let v = self.data[self.pos];
        self.pos = self.pos + 1;
        Ok(v)
    }

    fn read_u16(&mut self) -> (r: Result<u16, ProtocolError>)
        requires
            old(self).pos <= old(self).data@.len(),
        ensures
            final(self).data == old(self).data,
            final(self).pos <= final(self).data@.len(),
            match take_u16(old(self).data@, old(self).pos as int) {
                Ok((v, q)) => r == Ok::<u16, ProtocolError>(v) && final(self).pos == q,
                Err(e) => r == Err::<u16, ProtocolError>(e) && final(self).pos == old(self).pos,
            },
    {
        if let Err(e) = self.ensure(2) {
            return Err(e);
        }
        let b0 = self.data[self.pos];
        let b1 = self.data[self.pos + 1];
        proof {
            lemma_le_value_2(self.data@.subrange(self.pos as int, self.pos + 2));
        }
        let v = (b0 as u16) + (b1 as u16) * 256;
        self.pos = self.pos + 2;
        Ok(v)
    }

    fn read_u64(&mut self) -> (r: Result<u64, ProtocolError>)
        requires
            old(self).pos <= old(self).data@.len(),
        ensures
            final(self).data == old(self).data,
            final(self).pos <= final(self).data@.len(),
            match take_u64(old(self).data@, old(self).pos as int) {
                Ok((v, q)) => r == Ok::<u64, ProtocolError>(v) && final(self).pos == q,
                Err(e) => r == Err::<u64, ProtocolError>(e) && final(self).pos == old(self).pos,
            },
    {
        if let Err(e) = self.ensure(8) {
            return Err(e);
        }
        let data = self.data;
        let base = self.pos;
        let dlen = data.len();
        let ghost s = data@.subrange(base as int, base + 8);
        let mut v: u64 = 0;
        let mut i: usize = 8;
        while i > 0
            invariant
                dlen == data@.len(),
                base + 8 <= data@.len(),
                s == data@.subrange(base as int, base + 8),
                i <= 8,
                v == le_value(s.subrange(i as int, 8)),
                v < pow256((8 - i) as nat),
            decreases i,
        {
            i = i - 1;
            let b = data[base + i];
            proof {
                let t = s.subrange(i as int, 8);
                assert(t.drop_first() =~= s.subrange(i + 1, 8));
                assert(t[0] == b);
                lemma_pow256_bounds((8 - i) as nat);
                assert(v * 256 + b < pow256((8 - i) as nat)) by (nonlinear_arith)
                    requires
                        v < pow256((8 - i - 1) as nat),
                        b < 256,
                        pow256((8 - i) as nat) == 256 * pow256((8 - i - 1) as nat),
                ;
            }
            v = v * 256 + b as u64;
        }
        assert(s.subrange(0, 8) =~= s);
        self.pos = base + 8;
        Ok(v)
    }

    fn read_text(&mut self, len: usize) -> (r: Result<String, ProtocolError>)
        requires
            old(self).pos <= old(self).data@.len(),
        ensures
            final(self).data == old(self).data,
            final(self).pos <= final(self).data@.len(),
            match take_text(old(self).data@, old(self).pos as int, len as int) {
                Ok((t, q)) => r matches Ok(s) && s@ == t && final(self).pos == q,
                Err(e) => r == Err::<String, ProtocolError>(e) && final(self).pos == old(self).pos,
            },
    {
        if let Err(e) = self.ensure(len) {
            return Err(e);
        }
        let dlen = self.data.len();
        let bytes = copy_range(self.data, self.pos, self.pos + len);
        let s = text_or(bytes, Utf8Field::StringField)?;
        self.pos = self.pos + len;
        Ok(s)
    }

    fn read_str(&mut self) -> (r: Result<String, ProtocolError>)
        requires
            old(self).pos <= old(self).data@.len(),
        ensures
            final(self).data == old(self).data,
            final(self).pos <= final(self).data@.len(),
            match take_str(old(self).data@, old(self).pos as int) {
                Ok((t, q)) => r matches Ok(s) && s@ == t && final(self).pos == q,
                Err(e) => r == Err::<String, ProtocolError>(e),
            },
    {
        let len = self.read_u16()?;
        self.read_text(len as usize)
    }

    fn read_opt_str(&mut self) -> (r: Result<Option<String>, ProtocolError>)
        requires
            old(self).pos <= old(self).data@.len(),
        ensures
            final(self).data == old(self).data,
            final(self).pos <= final(self).data@.len(),
            match take_opt_str(old(self).data@, old(self).pos as int) {
                Ok((t, q)) => r matches Ok(s) && opt_view(s) == t && final(self).pos == q,
                Err(e) => r == Err::<Option<String>, ProtocolError>(e),
            },
    {
        let raw = self.read_u16()?;
        if raw == 0xFFFF {
            return Ok(None);
        }
        let s = self.read_text(raw as usize)?;
        Ok(Some(s))
    }
}

proof fn lemma_le_value_2(s: Seq<u8>)
    requires
        s.len() == 2,
    ensures
        le_value(s) == s[0] as nat + 256 * (s[1] as nat),
{
    reveal_with_fuel(le_value, 3);
    assert(s.drop_first()[0] == s[1]);
    assert(s.drop_first().drop_first().len() == 0);
}

proof fn lemma_pow256_bounds(n: nat)
    ensures
        n >= 1 ==> pow256(n) == 256 * pow256((n - 1) as nat),
        n <= 8 ==> pow256(n) <= 0x1_0000_0000_0000_0000,
        pow256(8) == 0x1_0000_0000_0000_0000,
        pow256(n) >= 1,
    decreases n,
{
    reveal_with_fuel(pow256, 9);
    if n > 0 {
        lemma_pow256_bounds((n - 1) as nat);
    }
}

proof fn lemma_take_strs_err(p: Seq<u8>, pos: int, n: nat, m: nat)
    requires
        take_strs(p, pos, n) is Err,
        n <= m,
    ensures
        take_strs(p, pos, m) == take_strs(p, pos, n),
    decreases m - n,
{
    if n < m {
        lemma_take_strs_err(p, pos, n, (m - 1) as nat);
    }
}

proof fn lemma_take_sessions_err(p: Seq<u8>, pos: int, n: nat, m: nat)
    requires
        take_sessions(p, pos, n) is Err,
        n <= m,
    ensures
        take_sessions(p, pos, m) == take_sessions(p, pos, n),
    decreases m - n,
{
    if n < m {
        lemma_take_sessions_err(p, pos, n, (m - 1) as nat);
    }
}

/// Decodes a payload of the given wire type.
#[verifier::spinoff_prover]
#[verifier::rlimit(40)]
pub fn decode(msg_type: i32, payload: &[u8]) -> (r: Result<Message, ProtocolError>)
    ensures
        result_view(r) == decode_spec(msg_type, payload@),
{
    let mut cur = Cursor::new(payload);
    if msg_type == MSG_CREATE {
        let cols = cur.read_u16()?;
        let rows = cur.read_u16()?;
        let name = cur.read_opt_str()?;
        let command = cur.read_opt_str()?;
        Ok(Message::Create { name, command, cols, rows })
    } else if msg_type == MSG_ERROR {
        let bytes = slice_to_vec(payload);
        let message = text_or(bytes, Utf8Field::ErrorMessage)?;
        Ok(Message::Error { message })
    } else if msg_type == MSG_WINCH || msg_type == MSG_RESIZE_PTY {
        let name = cur.read_str()?;
        let cols = cur.read_u16()?;
        let rows = cur.read_u16()?;
        if msg_type == MSG_WINCH {
            Ok(Message::Winch { name, cols, rows })
        } else {
            Ok(Message::ResizePty { name, cols, rows })
        }
    } else if msg_type == MSG_HANGUP || msg_type == MSG_VIEW_SCREEN || msg_type == MSG_CREATED {
        let bytes = slice_to_vec(payload);
        let name = text_or(bytes, Utf8Field::SessionName)?;
        if msg_type == MSG_HANGUP {
            Ok(Message::Hangup { name })
        } else if msg_type == MSG_VIEW_SCREEN {
            Ok(Message::ViewScreen { name })
        } else {
            Ok(Message::Created { name })
        }
    } else if msg_type == MSG_COMMAND {
        let name = cur.read_str()?;
        let nargs = cur.read_u16()?;
        let ghost start = cur.pos as int;
        let mut args: Vec<String> = Vec::new();
        let mut i: u16 = 0;
        assert(args@.map_values(|a: String| a@) =~= Seq::<Seq<char>>::empty());
        #[verifier::loop_isolation(false)]
        while i < nargs
            invariant
                cur.data@ == payload@,
                cur.pos <= cur.data@.len(),
                i <= nargs,
                args@.len() == i,
                take_strs(payload@, start, i as nat) == Ok::<(Seq<Seq<char>>, int), ProtocolError>(
                    (args@.map_values(|a: String| a@), cur.pos as int),
                ),
            decreases nargs - i,
        {
            let ghost before = args@;
            let ghost q = cur.pos as int;
            match cur.read_str() {
                Ok(a) => {
                    args.push(a);
                    assert(args@.map_values(|a: String| a@) =~= before.map_values(|a: String| a@).push(
                        args@[i as int]@,
                    ));
                },
                Err(e) => {
                    proof {
                        assert(take_str(payload@, q) == Err::<(Seq<char>, int), ProtocolError>(e));
                        assert(take_strs(payload@, start, (i + 1) as nat) == Err::<
                            (Seq<Seq<char>>, int),
                            ProtocolError,
                        >(e));
                        lemma_take_strs_err(payload@, start, (i + 1) as nat, nargs as nat);
                    }
                    return Err(e);
                },
            }
            i = i + 1;
        }
        Ok(Message::Command { name, args })
    } else if msg_type == MSG_SEND_DATA {
        let name = cur.read_str()?;
        let data = slice_to_vec(cur.remaining());
        Ok(Message::SendData { name, data })
    } else if msg_type == MSG_KILL_SERVER {
        Ok(Message::KillServer)
    } else if msg_type == MSG_PING {
        Ok(Message::Ping)
    } else if msg_type == MSG_LIST_SESSIONS {
        Ok(Message::ListSessions)
    } else if msg_type == MSG_OK {
        Ok(Message::Ack)
    } else if msg_type == MSG_SESSION_LIST {
        let count = cur.read_u16()?;
        let ghost start = cur.pos as int;
        let mut sessions: Vec<SessionInfo> = Vec::new();
        let mut i: u16 = 0;
        assert(sessions@.map_values(|s: SessionInfo| s@) =~= Seq::<SessionInfoModel>::empty());
        #[verifier::loop_isolation(false)]
        while i < count
            invariant
                cur.data@ == payload@,
                cur.pos <= cur.data@.len(),
                i <= count,
                sessions@.len() == i,
                take_sessions(payload@, start, i as nat) == Ok::<(Seq<SessionInfoModel>, int), ProtocolError>(
                    (sessions@.map_values(|s: SessionInfo| s@), cur.pos as int),
                ),
            decreases count - i,
        {
            let ghost before = sessions@;
            let ghost q = cur.pos as int;
            match read_session(&mut cur) {
                Ok(s) => {
                    sessions.push(s);
                    assert(sessions@.map_values(|s: SessionInfo| s@) =~= before.map_values(
                        |s: SessionInfo| s@,
                    ).push(sessions@[i as int]@));
                },
                Err(e) => {
                    proof {
                        assert(take_sessions(payload@, start, (i + 1) as nat) == Err::<
                            (Seq<SessionInfoModel>, int),
                            ProtocolError,
                        >(e));
                        lemma_take_sessions_err(payload@, start, (i + 1) as nat, count as nat);
                    }
                    return Err(e);
                },
            }
            i = i + 1;
        }
        Ok(Message::SessionList { sessions })
    } else if msg_type == MSG_SCREEN_DATA {
        if payload.len() < 4 {
            return Err(ProtocolError::ScreenDataTooShort);
        }
        let n = payload.len();
        let cursor_col = (payload[n - 4] as u16) + (payload[n - 3] as u16) * 256;
        let cursor_row = (payload[n - 2] as u16) + (payload[n - 1] as u16) * 256;
        proof {
            lemma_le_value_2(payload@.subrange(n - 4, n - 2));
            lemma_le_value_2(payload@.subrange(n - 2, n as int));
        }
        let content = text_or(copy_range(payload, 0, n - 4), Utf8Field::ScreenData)?;
        Ok(Message::ScreenData { content, cursor_col, cursor_row })
    } else if msg_type == MSG_PONG {
        Ok(Message::Pong)
    } else {
        Err(ProtocolError::UnknownType { msg_type })
    }
}

/// Reads one session record.
fn read_session(cur: &mut Cursor) -> (r: Result<SessionInfo, ProtocolError>)
    requires
        old(cur).pos <= old(cur).data@.len(),
    ensures
        final(cur).data == old(cur).data,
        final(cur).pos <= final(cur).data@.len(),
        match take_session(old(cur).data@, old(cur).pos as int) {
            Ok((t, q)) => r matches Ok(s) && s@ == t && final(cur).pos == q,
            Err(e) => r == Err::<SessionInfo, ProtocolError>(e),
        },
{
    let name = cur.read_str()?;
    let command = cur.read_str()?;
    let created_at = cur.read_u64()?;
    let alive = cur.read_u8()? != 0;
    Ok(SessionInfo { name, command, created_at, alive })
}

/// A vector holding the bytes of a slice.
fn slice_to_vec(data: &[u8]) -> (v: Vec<u8>)
    ensures
        v@ == data@,
{
    let v = copy_range(data, 0, data.len());
    assert(data@.subrange(0, data@.len() as int) =~= data@);
    v
}

// ── Round trip ───────────────────────────────────────────────────────

/// A string whose UTF-8 length fits a 16-bit length field.
pub open spec fn str_fits(s: Seq<char>) -> bool {
    encode_utf8(s).len() <= 0xFFFF
}

/// An optional string that a 16-bit field can carry without being read back as
/// absent (`0xFFFF` is reserved for that).
pub open spec fn opt_str_fits(o: Option<Seq<char>>) -> bool {
    match o {
        None => true,
        Some(s) => encode_utf8(s).len() < 0xFFFF,
    }
}

/// Every count and length prefix of the message fits its 16-bit field.
pub open spec fn fits_wire(m: MessageModel) -> bool {
    match m {
        MessageModel::Create { name, command, .. } => opt_str_fits(name) && opt_str_fits(command),
        MessageModel::Winch { name, .. } => str_fits(name),
        MessageModel::ResizePty { name, .. } => str_fits(name),
        MessageModel::Command { name, args } => str_fits(name) && args.len() <= 0xFFFF && (forall|
            i: int,
        |
            0 <= i < args.len() ==> str_fits(#[trigger] args[i])),
        MessageModel::SendData { name, .. } => str_fits(name),
        MessageModel::SessionList { sessions } => sessions.len() <= 0xFFFF && (forall|i: int|
            0 <= i < sessions.len() ==> str_fits((#[trigger] sessions[i]).name) && str_fits(
                sessions[i].command,
            )),
        _ => true,
    }
}

proof fn lemma_le(x: nat, n: nat)
    requires
        x < pow256(n),
    ensures
        le_bytes(x, n).len() == n,
        le_value(le_bytes(x, n)) == x,
    decreases n,
{
    if n == 0 {
        assert(x == 0);
    } else {
        let rest = le_bytes(x / 256, (n - 1) as nat);
        assert(x / 256 < pow256((n - 1) as nat)) by (nonlinear_arith)
            requires
                x < pow256(n),
                pow256(n) == 256 * pow256((n - 1) as nat),
        ;
        lemma_le(x / 256, (n - 1) as nat);
        let b = le_bytes(x, n);
        assert(b.drop_first() =~= rest);
        assert(b[0] == (x % 256) as u8);
    }
}

proof fn lemma_take_u16(p: Seq<u8>, pos: int, x: nat)
    requires
        0 <= pos,
        pos + 2 <= p.len(),
        x < 65536,
        p.subrange(pos, pos + 2) == le_bytes(x, 2),
    ensures
        take_u16(p, pos) == Ok::<(u16, int), ProtocolError>((x as u16, pos + 2)),
{
    reveal_with_fuel(pow256, 3);
    lemma_le(x, 2);
}

proof fn lemma_take_str(p: Seq<u8>, pos: int, s: Seq<char>)
    requires
        0 <= pos,
        str_fits(s),
        pos + str_field(s).len() <= p.len(),
        p.subrange(pos, pos + str_field(s).len()) == str_field(s),
    ensures
        take_str(p, pos) == Ok::<(Seq<char>, int), ProtocolError>((s, pos + str_field(s).len())),
{
    let e = encode_utf8(s);
    let f = str_field(s);
    reveal_with_fuel(pow256, 3);
    lemma_le(e.len(), 2);
    assert(e.len() % 65536 == e.len());
    assert(p.subrange(pos, pos + 2) =~= f.subrange(0, 2));
    assert(f.subrange(0, 2) =~= le_bytes(e.len(), 2));
    lemma_take_u16(p, pos, e.len());
    assert(p.subrange(pos + 2, pos + 2 + e.len()) =~= f.subrange(2, f.len() as int));
    assert(f.subrange(2, f.len() as int) =~= e);
}

proof fn lemma_take_opt_str(p: Seq<u8>, pos: int, o: Option<Seq<char>>)
    requires
        0 <= pos,
        opt_str_fits(o),
        pos + opt_str_field(o).len() <= p.len(),
        p.subrange(pos, pos + opt_str_field(o).len()) == opt_str_field(o),
    ensures
        take_opt_str(p, pos) == Ok::<(Option<Seq<char>>, int), ProtocolError>(
            (o, pos + opt_str_field(o).len()),
        ),
{
    match o {
        None => {
            reveal_with_fuel(le_value, 3);
            let b = p.subrange(pos, pos + 2);
            assert(b[0] == 0xFFu8 && b[1] == 0xFFu8);
            assert(b.drop_first()[0] == 0xFFu8);
            assert(b.drop_first().drop_first().len() == 0);
        },
        Some(s) => {
            lemma_take_str(p, pos, s);
            let e = encode_utf8(s);
            reveal_with_fuel(pow256, 3);
            lemma_le(e.len(), 2);
            assert(p.subrange(pos, pos + 2) =~= str_field(s).subrange(0, 2));
            assert(str_field(s).subrange(0, 2) =~= le_bytes(e.len(), 2));
            lemma_take_u16(p, pos, e.len());
        },
    }
}

proof fn lemma_two_bytes(x: nat)
    requires
        x < 65536,
    ensures
        le_bytes(x, 2).len() == 2,
        le_bytes(x, 2)[0] == (x % 256) as u8,
        le_bytes(x, 2)[1] == (x / 256) as u8,
{
    reveal_with_fuel(le_bytes, 3);
}

/// Where sizes stand in a payload, each as two bytes with the low byte first: a
/// session-creating message starts with the width and then the height; resize and
/// window-size messages end with the width and then the height; a screen reply ends
/// with the cursor's column and then its row.
pub proof fn lemma_wire_sizes(m: MessageModel)
    ensures
        ({
            let p = payload_of(m);
            let k = p.len() as int;
            &&& m matches MessageModel::Create { cols, rows, .. } ==> k >= 4 && p[0] == (cols % 256) as u8 && p[1]
                == (cols / 256) as u8 && p[2] == (rows % 256) as u8 && p[3] == (rows / 256) as u8
            &&& m matches MessageModel::ResizePty { cols, rows, .. } ==> k >= 4 && p[k - 4] == (cols % 256) as u8
                && p[k - 3] == (cols / 256) as u8 && p[k - 2] == (rows % 256) as u8 && p[k - 1] == (rows / 256) as u8
            &&& m matches MessageModel::Winch { cols, rows, .. } ==> k >= 4 && p[k - 4] == (cols % 256) as u8 && p[k
                - 3] == (cols / 256) as u8 && p[k - 2] == (rows % 256) as u8 && p[k - 1] == (rows / 256) as u8
            &&& m matches MessageModel::ScreenData { cursor_col, cursor_row, .. } ==> k >= 4 && p[k - 4] == (cursor_col
                % 256) as u8 && p[k - 3] == (cursor_col / 256) as u8 && p[k - 2] == (cursor_row % 256) as u8 && p[k
                - 1] == (cursor_row / 256) as u8
        }),
{
    match m {
        MessageModel::Create { name, command, cols, rows } => {
            lemma_two_bytes(cols as nat);
            lemma_two_bytes(rows as nat);
        },
        MessageModel::ResizePty { name, cols, rows } => {
            lemma_two_bytes(cols as nat);
            lemma_two_bytes(rows as nat);
        },
        MessageModel::Winch { name, cols, rows } => {
            lemma_two_bytes(cols as nat);
            lemma_two_bytes(rows as nat);
        },
        MessageModel::ScreenData { content, cursor_col, cursor_row } => {
            lemma_two_bytes(cursor_col as nat);
            lemma_two_bytes(cursor_row as nat);
        },
        _ => {},
    }
}

/// A string field reads back as the string wherever it stands in a payload, and the
/// reader moves just past it.
pub proof fn lemma_str_field_roundtrip(pre: Seq<u8>, s: Seq<char>, post: Seq<u8>)
    requires
        str_fits(s),
    ensures
        take_str(pre + str_field(s) + post, pre.len() as int) == Ok::<(Seq<char>, int), ProtocolError>(
            (s, (pre.len() + str_field(s).len()) as int),
        ),
{
    let p = pre + str_field(s) + post;
    assert(p.subrange(pre.len() as int, (pre.len() + str_field(s).len()) as int) =~= str_field(s));
    lemma_take_str(p, pre.len() as int, s);
}

/// An optional string field reads back as the optional string wherever it stands in a
/// payload, and the reader moves just past it.
pub proof fn lemma_opt_str_field_roundtrip(pre: Seq<u8>, o: Option<Seq<char>>, post: Seq<u8>)
    requires
        opt_str_fits(o),
    ensures
        take_opt_str(pre + opt_str_field(o) + post, pre.len() as int) == Ok::<
            (Option<Seq<char>>, int),
            ProtocolError,
        >((o, (pre.len() + opt_str_field(o).len()) as int)),
{
    let p = pre + opt_str_field(o) + post;
    assert(p.subrange(pre.len() as int, (pre.len() + opt_str_field(o).len()) as int) =~= opt_str_field(o));
    lemma_take_opt_str(p, pre.len() as int, o);
}

proof fn lemma_split(p: Seq<u8>, pos: int, a: Seq<u8>, b: Seq<u8>)
    requires
        0 <= pos,
        pos + a.len() + b.len() <= p.len(),
        p.subrange(pos, pos + a.len() + b.len()) == a + b,
    ensures
        p.subrange(pos, pos + a.len()) == a,
        p.subrange(pos + a.len(), pos + a.len() + b.len()) == b,
{
    let w = p.subrange(pos, pos + a.len() + b.len());
    assert forall|i: int| 0 <= i < a.len() implies p.subrange(pos, pos + a.len())[i] == a[i] by {
        assert(w[i] == (a + b)[i]);
    }
    assert forall|i: int| 0 <= i < b.len() implies p.subrange(
        pos + a.len(),
        pos + a.len() + b.len(),
    )[i] == b[i] by {
        assert(w[a.len() + i] == (a + b)[a.len() + i]);
    }
    assert(p.subrange(pos, pos + a.len()) =~= a);
    assert(p.subrange(pos + a.len(), pos + a.len() + b.len()) =~= b);
}

proof fn lemma_take_strs(p: Seq<u8>, pos: int, args: Seq<Seq<char>>)
    requires
        0 <= pos,
        forall|i: int| 0 <= i < args.len() ==> str_fits(#[trigger] args[i]),
        pos + str_fields(args).len() <= p.len(),
        p.subrange(pos, pos + str_fields(args).len()) == str_fields(args),
    ensures
        take_strs(p, pos, args.len()) == Ok::<(Seq<Seq<char>>, int), ProtocolError>(
            (args, pos + str_fields(args).len()),
        ),
    decreases args.len(),
{
    if args.len() > 0 {
        let init = args.drop_last();
        let a = str_fields(init);
        let b = str_field(args.last());
        assert(str_fields(args) == a + b);
        assert forall|i: int| 0 <= i < init.len() implies str_fits(#[trigger] init[i]) by {
            assert(init[i] == args[i]);
        }
        lemma_split(p, pos, a, b);
        lemma_take_strs(p, pos, init);
        assert(str_fits(args[args.len() - 1]));
        lemma_take_str(p, pos + a.len(), args.last());
        assert(init.push(args.last()) =~= args);
    } else {
        assert(args =~= Seq::<Seq<char>>::empty());
    }
}

proof fn lemma_take_session(p: Seq<u8>, pos: int, s: SessionInfoModel)
    requires
        0 <= pos,
        str_fits(s.name),
        str_fits(s.command),
        pos + session_field(s).len() <= p.len(),
        p.subrange(pos, pos + session_field(s).len()) == session_field(s),
    ensures
        take_session(p, pos) == Ok::<(SessionInfoModel, int), ProtocolError>(
            (s, pos + session_field(s).len()),
        ),
{
    let a = str_field(s.name);
    let b = str_field(s.command);
    let c = le_bytes(s.created_at as nat, 8);
    let d = seq![
        if s.alive {
            1u8
        } else {
            0u8
        },
    ];
    let f = session_field(s);
    lemma_pow256_bounds(8);
    lemma_le(s.created_at as nat, 8);
    assert(f == a + b + c + d);
    lemma_split(p, pos, a + b + c, d);
    lemma_split(p, pos, a + b, c);
    lemma_split(p, pos, a, b);
    lemma_take_str(p, pos, s.name);
    lemma_take_str(p, pos + a.len(), s.command);
    let q2 = pos + a.len() + b.len();
    assert(p.subrange(q2, q2 + 8) == c);
    assert(p.subrange(q2 + 8, q2 + 9) == d);
    assert(p[q2 + 8] == p.subrange(q2 + 8, q2 + 9)[0]);
}

proof fn lemma_take_sessions(p: Seq<u8>, pos: int, ss: Seq<SessionInfoModel>)
    requires
        0 <= pos,
        forall|i: int|
            0 <= i < ss.len() ==> str_fits((#[trigger] ss[i]).name) && str_fits(ss[i].command),
        pos + session_fields(ss).len() <= p.len(),
        p.subrange(pos, pos + session_fields(ss).len()) == session_fields(ss),
    ensures
        take_sessions(p, pos, ss.len()) == Ok::<(Seq<SessionInfoModel>, int), ProtocolError>(
            (ss, pos + session_fields(ss).len()),
        ),
    decreases ss.len(),
{
    if ss.len() > 0 {
        let init = ss.drop_last();
        let a = session_fields(init);
        let b = session_field(ss.last());
        assert(session_fields(ss) == a + b);
        assert forall|i: int|
            0 <= i < init.len() implies str_fits((#[trigger] init[i]).name) && str_fits(
            init[i].command,
        ) by {
            assert(init[i] == ss[i]);
        }
        lemma_split(p, pos, a, b);
        lemma_take_sessions(p, pos, init);
        assert(str_fits(ss[ss.len() - 1].name));
        lemma_take_session(p, pos + a.len(), ss.last());
        assert(init.push(ss.last()) =~= ss);
    } else {
        assert(ss =~= Seq::<SessionInfoModel>::empty());
    }
}

proof fn lemma_split0(p: Seq<u8>, a: Seq<u8>, b: Seq<u8>)
    requires
        p == a + b,
    ensures
        p.subrange(0, a.len() as int) == a,
        p.subrange(a.len() as int, p.len() as int) == b,
{
    assert(p.subrange(0, p.len() as int) =~= p);
    lemma_split(p, 0, a, b);
}

proof fn lemma_roundtrip_create(m: MessageModel)
    requires
        fits_wire(m),
        m is Create,
    ensures
        decode_spec(msg_type_of(m), payload_of(m)) == Ok::<MessageModel, ProtocolError>(m),
{
    reveal_with_fuel(pow256, 3);
    let p = payload_of(m);
    if let MessageModel::Create { name, command, cols, rows } = m {
        let a = le_bytes(cols as nat, 2);
        let b = le_bytes(rows as nat, 2);
        let c = opt_str_field(name);
        let d = opt_str_field(command);
        lemma_le(cols as nat, 2);
        lemma_le(rows as nat, 2);
        assert(p == a + b + c + d);
        lemma_split0(p, a + b + c, d);
        lemma_split(p, 0, a + b, c);
        lemma_split(p, 0, a, b);
        lemma_take_u16(p, 0, cols as nat);
        lemma_take_u16(p, 2, rows as nat);
        lemma_take_opt_str(p, 4, name);
        lemma_take_opt_str(p, 4 + c.len() as int, command);
    }
}

proof fn lemma_roundtrip_sized(m: MessageModel)
    requires
        fits_wire(m),
        m is Winch || m is ResizePty,
    ensures
        decode_spec(msg_type_of(m), payload_of(m)) == Ok::<MessageModel, ProtocolError>(m),
{
    reveal_with_fuel(pow256, 3);
    let p = payload_of(m);
    let (name, cols, rows) = match m {
        MessageModel::Winch { name, cols, rows } => (name, cols, rows),
        MessageModel::ResizePty { name, cols, rows } => (name, cols, rows),
        _ => { return; },
    };
    let a = str_field(name);
    let b = le_bytes(cols as nat, 2);
    let c = le_bytes(rows as nat, 2);
    lemma_le(cols as nat, 2);
    lemma_le(rows as nat, 2);
    assert(p == a + b + c);
    lemma_split0(p, a + b, c);
    lemma_split(p, 0, a, b);
    lemma_take_str(p, 0, name);
    lemma_take_u16(p, a.len() as int, cols as nat);
    lemma_take_u16(p, a.len() as int + 2, rows as nat);
}

proof fn lemma_roundtrip_command(m: MessageModel)
    requires
        fits_wire(m),
        m is Command,
    ensures
        decode_spec(msg_type_of(m), payload_of(m)) == Ok::<MessageModel, ProtocolError>(m),
{
    reveal_with_fuel(pow256, 3);
    let p = payload_of(m);
    if let MessageModel::Command { name, args } = m {
        let a = str_field(name);
        let b = le_bytes(args.len() % 65536, 2);
        let c = str_fields(args);
        lemma_le(args.len(), 2);
        assert(args.len() % 65536 == args.len());
        assert(p == a + b + c);
        lemma_split0(p, a + b, c);
        lemma_split(p, 0, a, b);
        lemma_take_str(p, 0, name);
        lemma_take_u16(p, a.len() as int, args.len());
        lemma_take_strs(p, a.len() as int + 2, args);
    }
}

proof fn lemma_roundtrip_sessions(m: MessageModel)
    requires
        fits_wire(m),
        m is SessionList,
    ensures
        decode_spec(msg_type_of(m), payload_of(m)) == Ok::<MessageModel, ProtocolError>(m),
{
    reveal_with_fuel(pow256, 3);
    let p = payload_of(m);
    if let MessageModel::SessionList { sessions } = m {
        let b = le_bytes(sessions.len() % 65536, 2);
        let c = session_fields(sessions);
        lemma_le(sessions.len(), 2);
        assert(sessions.len() % 65536 == sessions.len());
        assert(p == b + c);
        lemma_split0(p, b, c);
        lemma_take_u16(p, 0, sessions.len());
        lemma_take_sessions(p, 2, sessions);
    }
}

proof fn lemma_roundtrip_send(m: MessageModel)
    requires
        fits_wire(m),
        m is SendData,
    ensures
        decode_spec(msg_type_of(m), payload_of(m)) == Ok::<MessageModel, ProtocolError>(m),
{
    let p = payload_of(m);
    if let MessageModel::SendData { name, data } = m {
        let a = str_field(name);
        assert(p == a + data);
        lemma_split0(p, a, data);
        lemma_take_str(p, 0, name);
    }
}

proof fn lemma_roundtrip_screen(m: MessageModel)
    requires
        m is ScreenData,
    ensures
        decode_spec(msg_type_of(m), payload_of(m)) == Ok::<MessageModel, ProtocolError>(m),
{
    reveal_with_fuel(pow256, 3);
    let p = payload_of(m);
    if let MessageModel::ScreenData { content, cursor_col, cursor_row } = m {
        let e = encode_utf8(content);
        lemma_le(cursor_col as nat, 2);
        lemma_le(cursor_row as nat, 2);
        let b = le_bytes(cursor_col as nat, 2);
        let c = le_bytes(cursor_row as nat, 2);
        assert(p == e + b + c);
        lemma_split0(p, e + b, c);
        lemma_split(p, 0, e, b);
        encode_utf8_valid_utf8(content);
        encode_utf8_decode_utf8(content);
    }
}

proof fn lemma_roundtrip_text(m: MessageModel)
    requires
        m is Error || m is Hangup || m is ViewScreen || m is Created,
    ensures
        decode_spec(msg_type_of(m), payload_of(m)) == Ok::<MessageModel, ProtocolError>(m),
{
    let t = match m {
        MessageModel::Error { message } => message,
        MessageModel::Hangup { name } => name,
        MessageModel::ViewScreen { name } => name,
        MessageModel::Created { name } => name,
        _ => Seq::<char>::empty(),
    };
    encode_utf8_valid_utf8(t);
    encode_utf8_decode_utf8(t);
}

/// Decoding the payload that a message encodes to gives the message back, for every
/// message whose lengths and counts fit their 16-bit fields.
pub proof fn lemma_decode_encode(m: MessageModel)
    requires
        fits_wire(m),
    ensures
        decode_spec(msg_type_of(m), payload_of(m)) == Ok::<MessageModel, ProtocolError>(m),
{
    if m is Create {
        lemma_roundtrip_create(m);
    } else if m is Winch || m is ResizePty {
        lemma_roundtrip_sized(m);
    } else if m is Command {
        lemma_roundtrip_command(m);
    } else if m is SessionList {
        lemma_roundtrip_sessions(m);
    } else if m is SendData {
        lemma_roundtrip_send(m);
    } else if m is ScreenData {
        lemma_roundtrip_screen(m);
    } else if m is Error || m is Hangup || m is ViewScreen || m is Created {
        lemma_roundtrip_text(m);
    }
}

// ── Framing ──────────────────────────────────────────────────────────

/// The bytes of a whole frame: header (revision, type, payload length) and payload,
/// or `TooLarge` when the payload exceeds [`MAX_IPC_MESSAGE_SIZE`].
pub open spec fn frame_spec(m: MessageModel) -> Result<Seq<u8>, ProtocolError> {
    let p = payload_of(m);
    if p.len() > MAX_IPC_MESSAGE_SIZE {
        Err(ProtocolError::TooLarge)
    } else {
        Ok(
            le_bytes(PROTOCOL_REVISION as nat, 4) + le_bytes(msg_type_of(m) as nat, 4) + le_bytes(
                p.len(),
                4,
            ) + p,
        )
    }
}

/// What a 12-byte header announces: the message type and payload length, or why
/// the header is refused.
pub open spec fn header_spec(h: Seq<u8>) -> Result<(i32, nat), ProtocolError> {
    let rev = i32_of_u32(le_value(h.subrange(0, 4))) as i32;
    let ty = i32_of_u32(le_value(h.subrange(4, 8))) as i32;
    let len = le_value(h.subrange(8, 12));
    if rev != PROTOCOL_REVISION {
        Err(ProtocolError::BadRevision { found: rev })
    } else if len > MAX_IPC_MESSAGE_SIZE {
        Err(ProtocolError::TooLarge)
    } else {
        Ok((ty, len))
    }
}

/// Encodes a message as a whole frame (header then payload).
pub fn encode_frame(msg: &Message) -> (r: Result<Vec<u8>, ProtocolError>)
    ensures
        match frame_spec(msg@) {
            Ok(bytes) => r matches Ok(v) && v@ == bytes,
            Err(e) => r == Err::<Vec<u8>, ProtocolError>(e),
        },
{
    let (msg_type, payload) = encode_parts(msg);
    if payload.len() > MAX_IPC_MESSAGE_SIZE {
        return Err(ProtocolError::TooLarge);
    }
    let mut out: Vec<u8> = Vec::new();
    push_le(&mut out, PROTOCOL_REVISION as u64, 4);
    push_le(&mut out, msg_type as u64, 4);
    push_le(&mut out, payload.len() as u64, 4);
    push_bytes(&mut out, payload.as_slice());
    Ok(out)
}

/// The number that four little-endian bytes at `pos` denote.
fn le_u32_at(h: &[u8], pos: usize) -> (v: u32)
    requires
        pos + 4 <= h@.len(),
    ensures
        v == le_value(h@.subrange(pos as int, pos + 4)),
{
    let ghost s = h@.subrange(pos as int, pos + 4);
    proof {
        reveal_with_fuel(le_value, 5);
        assert(s.drop_first()[0] == s[1]);
        assert(s.drop_first().drop_first()[0] == s[2]);
        assert(s.drop_first().drop_first().drop_first()[0] == s[3]);
        assert(s.drop_first().drop_first().drop_first().drop_first().len() == 0);
    }
    (h[pos] as u32) + (h[pos + 1] as u32) * 256 + (h[pos + 2] as u32) * 65536 + (h[pos + 3] as u32)
        * 16777216
}

/// The two's-complement reading of a 32-bit pattern.
fn i32_from_u32(u: u32) -> (v: i32)
    ensures
        v == i32_of_u32(u as nat),
{
    if u < 0x8000_0000 {
        u as i32
    } else {
        ((u as i64) - 0x1_0000_0000i64) as i32
    }
}

/// Checks a 12-byte header and returns the message type and payload length it announces.
pub fn parse_header(hdr: &[u8]) -> (r: Result<(i32, usize), ProtocolError>)
    requires
        hdr@.len() == HEADER_SIZE,
    ensures
        match header_spec(hdr@) {
            Ok((t, n)) => r == Ok::<(i32, usize), ProtocolError>((t, n as usize)),
            Err(e) => r == Err::<(i32, usize), ProtocolError>(e),
        },
{
    let revision = i32_from_u32(le_u32_at(hdr, 0));
    let msg_type = i32_from_u32(le_u32_at(hdr, 4));
    let payload_len = le_u32_at(hdr, 8);
    if revision != PROTOCOL_REVISION {
        return Err(ProtocolError::BadRevision { found: revision });
    }
    if payload_len as usize > MAX_IPC_MESSAGE_SIZE {
        return Err(ProtocolError::TooLarge);
    }
    Ok((msg_type, payload_len as usize))
}

/// A frame carries its message: the header announces the message's type and payload
/// length, and decoding the payload gives the message back, for every message whose
/// lengths fit their fields and whose payload is within the size limit.
pub proof fn lemma_frame_roundtrip(m: MessageModel)
    requires
        fits_wire(m),
        payload_of(m).len() <= MAX_IPC_MESSAGE_SIZE,
    ensures
        frame_spec(m) is Ok,
        frame_spec(m)->Ok_0.len() == HEADER_SIZE + payload_of(m).len(),
        header_spec(frame_spec(m)->Ok_0.subrange(0, HEADER_SIZE as int)) == Ok::<
            (i32, nat),
            ProtocolError,
        >((msg_type_of(m), payload_of(m).len())),
        decode_spec(
            msg_type_of(m),
            frame_spec(m)->Ok_0.subrange(HEADER_SIZE as int, frame_spec(m)->Ok_0.len() as int),
        ) == Ok::<MessageModel, ProtocolError>(m),
{
    reveal_with_fuel(pow256, 5);
    let p = payload_of(m);
    let a = le_bytes(PROTOCOL_REVISION as nat, 4);
    let b = le_bytes(msg_type_of(m) as nat, 4);
    let c = le_bytes(p.len(), 4);
    lemma_le(PROTOCOL_REVISION as nat, 4);
    lemma_le(msg_type_of(m) as nat, 4);
    lemma_le(p.len(), 4);
    let f = a + b + c + p;
    assert(f == frame_spec(m)->Ok_0);
    lemma_split0(f, a + b + c, p);
    let h = f.subrange(0, 12);
    assert(h == a + b + c);
    lemma_split0(h, a + b, c);
    lemma_split(h, 0, a, b);
    lemma_decode_encode(m);
}


/// The lower-case hexadecimal digit for a value below sixteen.
pub open spec fn hex_digit_char(d: nat) -> char {
    if d < 10 {
        ((d + 48) as u8) as char
    } else {
        ((d + 87) as u8) as char
    }
}

/// The eight lower-case hexadecimal digits of a 32-bit pattern (`{:08x}`).
pub open spec fn hex8(v: nat) -> Seq<char> {
    Seq::new(8, |i: int| hex_digit_char((v / pow16_ipc((7 - i) as nat)) % 16))
}

/// Sixteen to the power `n`.
pub open spec fn pow16_ipc(n: nat) -> nat
    decreases n,
{
    if n == 0 {
        1
    } else {
        16 * pow16_ipc((n - 1) as nat)
    }
}

/// What the field that held bytes that are not UTF-8 is called in messages.
pub open spec fn utf8_field_text(f: Utf8Field) -> Seq<char> {
    match f {
        Utf8Field::StringField => "string field"@,
        Utf8Field::ErrorMessage => "error message"@,
        Utf8Field::SessionName => "session name"@,
        Utf8Field::ScreenData => "screen data"@,
    }
}

/// The human-readable text of a protocol error.
pub open spec fn protocol_error_text(e: ProtocolError) -> Seq<char> {
    match e {
        ProtocolError::BadRevision { found } => "invalid message (magic 0x"@ + hex8(
            (found as u32) as nat,
        ) + ", expected 0x"@ + hex8((PROTOCOL_REVISION as u32) as nat) + ")"@,
        ProtocolError::TooLarge => "message too large"@,
        ProtocolError::UnexpectedEnd => "unexpected end of payload"@,
        ProtocolError::InvalidUtf8 { field } => "invalid UTF-8 in "@ + utf8_field_text(field),
        ProtocolError::ScreenDataTooShort => "screen data too short"@,
        ProtocolError::UnknownType { msg_type } => "unknown message type: "@ + signed_decimal(msg_type as int),
    }
}

/// Appends the eight lower-case hexadecimal digits of `v`.
fn push_hex8(s: &mut String, v: u32)
    ensures
        final(s)@ == old(s)@ + hex8(v as nat),
{
    let mut i: usize = 0;
    let mut shift: u32 = 28;
    while i < 8
        invariant
            i <= 8,
            i < 8 ==> shift == 28 - 4 * i,
            shift <= 28,
            shift % 4 == 0,
            s@ == old(s)@ + hex8(v as nat).take(i as int),
        decreases 8 - i,
    {
        let d = (v >> shift) & 0xF;
        proof {
            assert(pow16_ipc((7 - i) as nat) == pow2_of(shift)) by {
                lemma_pow16_shift((7 - i) as nat);
            }
            assert(d as nat == (v as nat / pow2_of(shift)) % 16) by {
                lemma_shift_digit(v, shift);
            }
        }
        let c = if d < 10 {
            ((d + 48) as u8) as char
        } else {
            ((d + 87) as u8) as char
        };
        string_push(s, c);
        assert(s@ =~= old(s)@ + hex8(v as nat).take(i + 1));
        i = i + 1;
        if i < 8 {
            shift = shift - 4;
        }
    }
    assert(hex8(v as nat).take(8) =~= hex8(v as nat));
}

/// Two to the power `n`.
pub open spec fn pow2_of(n: u32) -> nat
    decreases n,
{
    if n == 0 {
        1
    } else {
        2 * pow2_of((n - 1) as u32)
    }
}

proof fn lemma_pow16_shift(k: nat)
    requires
        k <= 7,
    ensures
        pow16_ipc(k) == pow2_of((4 * k) as u32),
{
    reveal_with_fuel(pow16_ipc, 8);
    reveal_with_fuel(pow2_of, 29);
}

proof fn lemma_shift_digit(v: u32, shift: u32)
    requires
        shift <= 28,
        shift % 4 == 0,
    ensures
        ((v >> shift) & 0xF) as nat == (v as nat / pow2_of(shift)) % 16,
{
    assert(((v >> shift) & 0xF) == (v >> shift) % 16) by (bit_vector);
    vstd::bits::lemma_u32_shr_is_div(v, shift);
    reveal_with_fuel(pow2_of, 29);
    vstd::arithmetic::power2::lemma_pow2(shift as nat);
    assert(pow2_of(shift) == vstd::arithmetic::power2::pow2(shift as nat)) by {
        lemma_pow2_agree(shift);
    }
}

proof fn lemma_pow2_agree(n: u32)
    ensures
        pow2_of(n) == vstd::arithmetic::power2::pow2(n as nat),
    decreases n,
{
    if n > 0 {
        lemma_pow2_agree((n - 1) as u32);
        vstd::arithmetic::power2::lemma_pow2_unfold(n as nat);
    } else {
        vstd::arithmetic::power2::lemma2_to64();
    }
}

impl ProtocolError {
    /// The human-readable text of the error (see [`protocol_error_text`]).
    pub fn message(&self) -> (s: String)
        ensures
            s@ == protocol_error_text(*self),
    {
        let mut s = String::new();
        match self {
            ProtocolError::BadRevision { found } => {
                string_push_str(&mut s, "invalid message (magic 0x");
                push_hex8(&mut s, *found as u32);
                string_push_str(&mut s, ", expected 0x");
                push_hex8(&mut s, PROTOCOL_REVISION as u32);
                string_push_str(&mut s, ")");
            },
            ProtocolError::TooLarge => string_push_str(&mut s, "message too large"),
            ProtocolError::UnexpectedEnd => string_push_str(&mut s, "unexpected end of payload"),
            ProtocolError::InvalidUtf8 { field } => {
                string_push_str(&mut s, "invalid UTF-8 in ");
                match field {
                    Utf8Field::StringField => string_push_str(&mut s, "string field"),
                    Utf8Field::ErrorMessage => string_push_str(&mut s, "error message"),
                    Utf8Field::SessionName => string_push_str(&mut s, "session name"),
                    Utf8Field::ScreenData => string_push_str(&mut s, "screen data"),
                }
            },
            ProtocolError::ScreenDataTooShort => string_push_str(&mut s, "screen data too short"),
            ProtocolError::UnknownType { msg_type } => {
                string_push_str(&mut s, "unknown message type: ");
                push_signed_decimal(&mut s, *msg_type);
            },
        }
        s
    }
}
} // verus!
