use pmux::cli::{Args, Mode};
use pmux::client::{Client, ClientConfig};
use pmux::commands::{
    plan_exec, reply_created, reply_exec, reply_list, reply_ping, reply_screen, reply_stop, ExecPlan,
};
use pmux::daemon::{after_reap, request_of, unsupported_reply, Request};
use pmux::ipc::{decode, encode, encode_frame, parse_header, Message, ProtocolError, Utf8Field, HEADER_SIZE, MSG_CREATE, MSG_ERROR, MSG_SCREEN_DATA, PROTOCOL_REVISION};
use pmux::log::log_line;
use pmux::platform::{
    daemon_listing, pid_file_stem,
    key_file_path, lock_file_path, parse_pid, pid_file_contents, port_file_path, posix_pmux_dir, socket_file_path,
    windows_pmux_dir, DaemonConfig,
};
use pmux::pty::{unix_default_shell, windows_default_shell, escape_argument, exec_argv, sets_term, windows_command_line, PtyConfig, PtyError, WindowSize};
use pmux::server::{Server, ServerConfig};
use pmux::session::{
    session_already_exists, session_not_found, shell_words_windows, unix_command_args, windows_command, SessionInfo,
    SessionTable,
};

fn utf16(s: &str) -> Vec<u16> {
    s.encode_utf16().collect()
}

fn strings(v: &[&str]) -> Vec<String> {
    v.iter().map(|s| s.to_string()).collect()
}

fn args_with(flags: &[&str]) -> Args {
    Args {
        list: flags.contains(&"list"),
        view: flags.contains(&"view"),
        resume: flags.contains(&"resume"),
        detach: false,
        execute: flags.contains(&"exec"),
        session: None,
        command: None,
        width: 80,
        height: 24,
        status: flags.contains(&"status"),
        stop: flags.contains(&"stop"),
        ping: flags.contains(&"ping"),
        daemon: flags.contains(&"daemon"),
        command_args: Vec::new(),
    }
}

#[test]
fn mode_follows_flag_priority() {
    assert_eq!(args_with(&[]).mode(), Mode::Create);
    assert_eq!(args_with(&["list", "daemon"]).mode(), Mode::Daemon);
    assert_eq!(args_with(&["list", "view"]).mode(), Mode::List);
    assert_eq!(args_with(&["resume", "exec"]).mode(), Mode::Exec);
    assert_eq!(args_with(&["resume"]).mode(), Mode::Resume);
    assert_eq!(args_with(&["ping", "stop"]).mode(), Mode::Stop);
    assert_eq!(args_with(&["status", "ping"]).mode(), Mode::Status);
}

#[test]
fn client_and_server_do_nothing_yet() {
    let mut c = Client::new(ClientConfig { session_name: "s".into(), socket_name: None });
    assert_eq!(c.attach(), Ok(()));
    assert_eq!(c.send_command("x"), Ok(String::new()));
    let cfg = ServerConfig::default();
    assert_eq!(cfg.session_name, "default");
    assert!(cfg.port.is_none());
    let mut s = Server::new(cfg);
    assert_eq!(s.run(), Ok(()));
}

#[test]
fn escape_argument_plain_and_quoted() {
    assert_eq!(escape_argument("abc"), utf16("abc"));
    assert_eq!(escape_argument(""), utf16("\"\""));
    assert_eq!(escape_argument("a b"), utf16("\"a b\""));
    assert_eq!(escape_argument("a\"b"), utf16("\"a\\\"b\""));
    assert_eq!(escape_argument("a\\"), utf16("\"a\\\\\""));
    assert_eq!(escape_argument("a\\\\\"b"), utf16("\"a\\\\\\\\\\\"b\""));
    assert_eq!(escape_argument("a\\b c"), utf16("\"a\\b c\""));
    assert_eq!(escape_argument("é𝄞"), utf16("é𝄞"));
}

/// Reads the first argument of a command line by the rules Windows programs follow,
/// and whether an unquoted space or tab ended it before the end of the line.
fn read_first_argument(line: &[u16]) -> (String, bool) {
    let chars: Vec<char> = char::decode_utf16(line.iter().cloned()).map(|r| r.unwrap()).collect();
    let mut out = String::new();
    let mut quoted = false;
    let mut slashes = 0usize;
    for c in chars {
        if c == '\\' {
            slashes += 1;
            continue;
        }
        if c == '"' {
            for _ in 0..slashes / 2 {
                out.push('\\');
            }
            if slashes % 2 == 1 {
                out.push('"');
            } else {
                quoted = !quoted;
            }
        } else if (c == ' ' || c == '\t') && !quoted {
            for _ in 0..slashes {
                out.push('\\');
            }
            return (out, true);
        } else {
            for _ in 0..slashes {
                out.push('\\');
            }
            out.push(c);
        }
        slashes = 0;
    }
    for _ in 0..slashes {
        out.push('\\');
    }
    (out, false)
}

#[test]
fn escaped_argument_reads_back() {
    for arg in ["", "abc", "a b", "a\"b", "a\\", "a\\\\\"b", "a\\b c", "\\\\", "\"\"", "tab\there", "é𝄞 x", " lead", "trail\\ "] {
        assert_eq!(read_first_argument(&escape_argument(arg)), (arg.to_string(), false));
    }
}

#[test]
fn windows_command_line_joins_arguments() {
    let mut expected = utf16("prog \"a b\" c");
    expected.push(0);
    assert_eq!(windows_command_line("prog", &strings(&["a b", "c"])), expected);
    assert_eq!(windows_command_line("p", &Vec::new()), vec![b'p' as u16, 0]);
}

#[test]
fn exec_argv_drops_nul_arguments() {
    assert_eq!(exec_argv("bash", &strings(&["-c", "ls"])), strings(&["bash", "-c", "ls"]));
    assert_eq!(exec_argv("ba\0sh", &strings(&["a", "b\0c"])), strings(&["sh", "a"]));
}

#[test]
fn term_setting_is_found() {
    assert!(sets_term(&vec![("A".to_string(), "1".to_string()), ("TERM".to_string(), "dumb".to_string())]));
    assert!(!sets_term(&vec![("TERMX".to_string(), "1".to_string())]));
}

#[test]
fn window_size_and_config_defaults() {
    assert_eq!(WindowSize::default(), WindowSize::new(80, 24));
    let c = PtyConfig::new("/bin/sh".to_string());
    assert_eq!(c.program, "/bin/sh");
    assert!(c.args.is_empty());
    assert_eq!(c.size, WindowSize { cols: 80, rows: 24 });
}

#[test]
fn pty_error_messages() {
    assert_eq!(PtyError::Closed.message(), "PTY has been closed");
    assert_eq!(PtyError::ProcessExited(-1).message(), "process exited with code -1");
    assert_eq!(PtyError::ProcessExited(3).message(), "process exited with code 3");
    assert_eq!(PtyError::ConPtyNotAvailable.message(), "ConPTY not available on this Windows version");
    let e = PtyError::Io(std::io::Error::new(std::io::ErrorKind::Other, "boom"));
    assert_eq!(e.message(), "PTY I/O error: boom");
    let e = PtyError::Resize(std::io::Error::new(std::io::ErrorKind::Other, "no"));
    assert_eq!(e.message(), "failed to resize PTY: no");
}

#[test]
fn shell_words_split_on_blanks_outside_quotes() {
    assert_eq!(
        shell_words_windows("-NoLogo  -Command \"Get-Item x\"\tend"),
        strings(&["-NoLogo", "-Command", "Get-Item x", "end"])
    );
    assert_eq!(shell_words_windows("   "), Vec::<String>::new());
    assert_eq!(shell_words_windows("a\"\"b"), strings(&["ab"]));
}

#[test]
fn windows_command_runs_powershell_directly() {
    assert_eq!(windows_command("  PowerShell.EXE -NoLogo -File \"a b.ps1\" "), (
        "PowerShell.EXE".to_string(),
        strings(&["-NoLogo", "-File", "a b.ps1"]),
    ));
    assert_eq!(windows_command("pwsh"), ("pwsh".to_string(), Vec::new()));
    assert_eq!(windows_command("dir /w"), ("cmd.exe".to_string(), strings(&["/c", "dir /w"])));
    assert_eq!(windows_command("pwshx"), ("cmd.exe".to_string(), strings(&["/c", "pwshx"])));
    assert_eq!(unix_command_args("ls -l".to_string()), strings(&["-c", "ls -l"]));
}

#[test]
fn session_messages() {
    assert_eq!(session_not_found("w"), "Session 'w' not found");
    assert_eq!(session_already_exists("w"), "Session 'w' already exists");
}

#[test]
fn session_table_numbers_unnamed_sessions() {
    let mut t: SessionTable<u32> = SessionTable::new();
    let a = t.allocate_name(None).unwrap();
    assert_eq!(a, "0");
    t.insert(a, 10);
    t.insert("2".to_string(), 20);
    assert_eq!(t.allocate_name(None).unwrap(), "1");
    t.insert("1".to_string(), 11);
    // "2" is taken, so the counter moves on to "3".
    assert_eq!(t.allocate_name(None).unwrap(), "3");
    assert_eq!(t.next_id_value(), 4);
    assert_eq!(t.allocate_name(Some("2".to_string())), Err("Session '2' already exists".to_string()));
    assert_eq!(t.allocate_name(Some("web".to_string())), Ok("web".to_string()));
    assert_eq!(t.count(), 3);
    assert_eq!(t.get("2"), Some(&20));
    assert!(t.contains("1"));
    assert_eq!(t.position("1"), Some(2));
    assert_eq!(t.remove("0"), Some(10));
    assert_eq!(t.remove("0"), None);
    assert_eq!(t.get("0"), None);
    assert_eq!(t.names_vec(), strings(&["2", "1"]));
    *t.value_mut(0) = 21;
    assert_eq!(t.get_at(0), (&"2".to_string(), &21));
}

#[test]
fn pid_files_round_trip() {
    assert_eq!(pid_file_contents(4242), "4242\n");
    assert_eq!(parse_pid(&pid_file_contents(4242)), Some(4242));
    assert_eq!(parse_pid(&pid_file_contents(0)), Some(0));
    assert_eq!(parse_pid(&pid_file_contents(u32::MAX)), Some(u32::MAX));
    assert_eq!(parse_pid("  +17 \r\n"), Some(17));
    assert_eq!(parse_pid("4294967296"), None);
    assert_eq!(parse_pid("12a"), None);
    assert_eq!(parse_pid("+"), None);
    assert_eq!(parse_pid(""), None);
    assert_eq!(parse_pid("-1"), None);
}

#[test]
fn session_file_paths() {
    assert_eq!(posix_pmux_dir("/home/u"), "/home/u/.pmux");
    assert_eq!(windows_pmux_dir("C:\\Users\\u"), "C:\\Users\\u\\.pmux");
    assert_eq!(socket_file_path("/d", "s"), "/d/s.sock");
    assert_eq!(lock_file_path("/d", "s"), "/d/s.pid");
    assert_eq!(port_file_path("C:\\d", "s"), "C:\\d\\s.port");
    assert_eq!(key_file_path("C:\\d", "s"), "C:\\d\\s.key");
    let c = DaemonConfig::default();
    assert_eq!(c.session_name, "default");
    assert!(c.init_size.is_none());
}

#[test]
fn log_lines_pad_milliseconds() {
    assert_eq!(log_line(12, 7, "hi"), "[12.007] hi");
    assert_eq!(log_line(0, 45, ""), "[0.045] ");
    assert_eq!(log_line(1700000000, 123, "x y"), "[1700000000.123] x y");
    assert_eq!(log_line(5, 1234, "m"), "[5.1234] m");
}

#[test]
fn exec_plan_errors() {
    let none: Option<String> = None;
    let name = Some("s".to_string());
    assert_eq!(plan_exec(&none, &strings(&["stuff", "x"])).err(), Some("session name required (use -S)".to_string()));
    assert_eq!(
        plan_exec(&name, &Vec::new()).err(),
        Some("command required (e.g., stuff, resize, view, hardcopy, quit)".to_string())
    );
    assert_eq!(plan_exec(&name, &strings(&["stuff"])).err(), Some("stuff requires text argument".to_string()));
}

#[test]
fn exec_plan_requests() {
    let name = Some("s".to_string());
    match plan_exec(&name, &strings(&["stuff", "ls", "-l\\n"])) {
        Ok(ExecPlan::Request(Message::SendData { name, data })) => {
            assert_eq!(name, "s");
            assert_eq!(data, b"ls -l\n");
        }
        _ => panic!("expected stuff to send data"),
    }
    match plan_exec(&name, &strings(&["hardcopy"])) {
        Ok(ExecPlan::Hardcopy { request: Message::Command { name, args }, file }) => {
            assert_eq!(name, "s");
            assert_eq!(args, strings(&["view"]));
            assert_eq!(file, "-");
        }
        _ => panic!("expected a hardcopy"),
    }
    match plan_exec(&name, &strings(&["hardcopy", "/tmp/out"])) {
        Ok(ExecPlan::Hardcopy { file, .. }) => assert_eq!(file, "/tmp/out"),
        _ => panic!("expected a hardcopy"),
    }
    match plan_exec(&name, &strings(&["resize", "100", "30"])) {
        Ok(ExecPlan::Request(Message::Command { name, args })) => {
            assert_eq!(name, "s");
            assert_eq!(args, strings(&["resize", "100", "30"]));
        }
        _ => panic!("expected a command"),
    }
}

#[test]
fn replies_are_read() {
    let err = Message::Error { message: "bad".into() };
    assert_eq!(reply_created(&Message::Created { name: "7".into() }), Ok("7".to_string()));
    assert_eq!(reply_created(&err), Err("bad".to_string()));
    assert_eq!(reply_created(&Message::Pong), Err("unexpected response".to_string()));
    let screen = Message::ScreenData { content: "$ ".into(), cursor_col: 2, cursor_row: 0 };
    assert_eq!(reply_screen(&screen), Ok("$ ".to_string()));
    assert_eq!(reply_screen(&Message::Ack), Err("unexpected response".to_string()));
    assert_eq!(reply_exec(&Message::Ack), Ok(None));
    assert_eq!(reply_exec(&screen), Ok(Some("$ ".to_string())));
    assert_eq!(reply_exec(&err), Err("bad".to_string()));
    assert_eq!(reply_stop(&Message::Ack), Ok("daemon stopped".to_string()));
    assert_eq!(reply_stop(&err), Err("bad".to_string()));
    assert_eq!(reply_ping(&Message::Pong), Ok("pong".to_string()));
    assert_eq!(reply_ping(&err), Err("unexpected response".to_string()));
}

#[test]
fn session_list_lines() {
    let list = Message::SessionList {
        sessions: vec![
            SessionInfo { name: "0".into(), command: "bash".into(), created_at: 1, alive: true },
            SessionInfo { name: "b".into(), command: "top".into(), created_at: 2, alive: false },
        ],
    };
    assert_eq!(reply_list(&list), Ok(strings(&["0: bash [running]", "b: top [dead]"])));
    assert_eq!(reply_list(&Message::SessionList { sessions: Vec::new() }), Ok(strings(&["No sessions"])));
    assert_eq!(reply_list(&Message::Ack), Err("unexpected response".to_string()));
}

#[test]
fn requests_are_classified() {
    assert!(matches!(request_of(Message::Hangup { name: "a".into() }), Request::KillSession { name } if name == "a"));
    assert!(matches!(
        request_of(Message::Winch { name: "a".into(), cols: 3, rows: 4 }),
        Request::ResizePty { cols: 3, rows: 4, .. }
    ));
    assert!(matches!(
        request_of(Message::Command { name: "a".into(), args: strings(&["view"]) }),
        Request::ViewScreen { name } if name == "a"
    ));
    assert!(matches!(request_of(Message::Command { name: "a".into(), args: strings(&["quit"]) }), Request::Unsupported));
    assert!(matches!(request_of(Message::Pong), Request::Unsupported));
    assert!(matches!(request_of(Message::KillServer), Request::KillServer));
    assert!(matches!(unsupported_reply(), Message::Error { message } if message == "unsupported request"));
}

#[test]
fn daemon_stops_after_last_session() {
    assert_eq!(after_reap(false, 0), (false, false));
    assert_eq!(after_reap(false, 2), (false, true));
    assert_eq!(after_reap(true, 1), (false, true));
    assert_eq!(after_reap(true, 0), (true, true));
}

#[test]
fn frames_round_trip_and_headers_are_checked() {
    let msg = Message::SendData { name: "test".into(), data: b"hello\x00world".to_vec() };
    let frame = encode_frame(&msg).unwrap();
    let (ty, len) = parse_header(&frame[..HEADER_SIZE]).unwrap();
    assert_eq!(len, frame.len() - HEADER_SIZE);
    match decode(ty, &frame[HEADER_SIZE..]).unwrap() {
        Message::SendData { name, data } => {
            assert_eq!(name, "test");
            assert_eq!(data, b"hello\x00world");
        }
        _ => panic!("expected SendData"),
    }
    let mut bad = Vec::new();
    bad.extend_from_slice(&0x12345678i32.to_le_bytes());
    bad.extend_from_slice(&0i32.to_le_bytes());
    bad.extend_from_slice(&0u32.to_le_bytes());
    let err = parse_header(&bad).unwrap_err();
    assert_eq!(err, ProtocolError::BadRevision { found: 0x12345678 });
    assert_eq!(err.message(), "invalid message (magic 0x12345678, expected 0x706d7801)");
    let mut big = Vec::new();
    big.extend_from_slice(&PROTOCOL_REVISION.to_le_bytes());
    big.extend_from_slice(&0i32.to_le_bytes());
    big.extend_from_slice(&(16 * 1024 * 1024 + 1u32).to_le_bytes());
    assert_eq!(parse_header(&big), Err(ProtocolError::TooLarge));
    assert_eq!(ProtocolError::TooLarge.message(), "message too large");
}

#[test]
fn decode_reports_each_error() {
    assert_eq!(decode(MSG_CREATE, &[1, 0]).err(), Some(ProtocolError::UnexpectedEnd));
    assert_eq!(decode(MSG_ERROR, &[0xFF]).err(), Some(ProtocolError::InvalidUtf8 { field: Utf8Field::ErrorMessage }));
    assert_eq!(decode(MSG_SCREEN_DATA, &[1, 2, 3]).err(), Some(ProtocolError::ScreenDataTooShort));
    assert_eq!(decode(999, &[]).err(), Some(ProtocolError::UnknownType { msg_type: 999 }));
    assert_eq!(ProtocolError::UnknownType { msg_type: -5 }.message(), "unknown message type: -5");
    assert_eq!(
        ProtocolError::InvalidUtf8 { field: Utf8Field::SessionName }.message(),
        "invalid UTF-8 in session name"
    );
    assert_eq!(ProtocolError::UnexpectedEnd.message(), "unexpected end of payload");
    assert_eq!(ProtocolError::ScreenDataTooShort.message(), "screen data too short");
}

#[test]
fn text_without_backslashes_is_its_own_encoding() {
    assert_eq!(pmux::escape::unescape("héllo wörld 你好"), "héllo wörld 你好".as_bytes());
}

#[test]
fn string_fields_read_back() {
    let long = "x".repeat(0xFFFE);
    for (name, command) in [(None, Some(String::new())), (Some("é".to_string()), None), (Some(String::new()), Some(long.clone()))] {
        let msg = Message::Create { name: name.clone(), command: command.clone(), cols: 3, rows: 4 };
        let (t, payload) = encode(&msg).unwrap();
        match decode(t, &payload).unwrap() {
            Message::Create { name: n, command: c, cols, rows } => {
                assert_eq!(n, name);
                assert_eq!(c, command);
                assert_eq!((cols, rows), (3, 4));
            }
            _ => panic!("wrong variant"),
        }
    }
    let err = Message::Error { message: long.clone() };
    let (t, payload) = encode(&err).unwrap();
    match decode(t, &payload).unwrap() {
        Message::Error { message } => assert_eq!(message, long),
        _ => panic!("wrong variant"),
    }
}

#[test]
fn default_shells() {
    assert_eq!(unix_default_shell(None), "/bin/bash");
    assert_eq!(unix_default_shell(Some("/bin/zsh".to_string())), "/bin/zsh");
    assert_eq!(windows_default_shell(), "cmd.exe");
}

#[test]
fn pid_file_names_give_sessions() {
    assert_eq!(pid_file_stem("work.pid"), Some("work".to_string()));
    assert_eq!(pid_file_stem("a.b.pid"), Some("a.b".to_string()));
    assert_eq!(pid_file_stem("..pid"), Some(".".to_string()));
    assert_eq!(pid_file_stem(".pid"), None);
    assert_eq!(pid_file_stem("work.sock"), None);
    assert_eq!(pid_file_stem("work.pidx"), None);
    assert_eq!(pid_file_stem("pid"), None);
}

#[test]
fn daemon_listing_sorts_running_and_finds_stale() {
    let found = vec![
        ("zeta".to_string(), true),
        ("old".to_string(), false),
        ("Alpha".to_string(), true),
        ("alpha".to_string(), true),
        ("é".to_string(), true),
        ("al".to_string(), true),
        ("gone".to_string(), false),
    ];
    let (running, stale) = daemon_listing(&found);
    let mut expected: Vec<String> = found.iter().filter(|e| e.1).map(|e| e.0.clone()).collect();
    expected.sort();
    assert_eq!(running, expected);
    assert_eq!(running, vec!["Alpha", "al", "alpha", "zeta", "é"]);
    assert_eq!(stale, vec!["old", "gone"]);
    assert_eq!(daemon_listing(&Vec::new()), (Vec::<String>::new(), Vec::<String>::new()));
}
