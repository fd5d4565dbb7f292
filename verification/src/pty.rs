//! Pseudo-terminal configuration and errors.
//!
//! Opening and driving a pseudo-terminal is the program's own business; the library
//! holds what it is opened with (a program, its arguments, a window size) and how
//! its failures are reported.
use vstd::prelude::*;
use vstd::string::StringExecFns;
use crate::text::{push_signed_decimal, signed_decimal, string_push_str};

verus! {

/// An operating-system I/O error, carried through unchanged.
#[verifier::external_type_specification]
#[verifier::external_body]
pub struct ExIoError(std::io::Error);

/// The text of an I/O error (`<std::io::Error as ToString>::to_string`). The text
/// rests on the operating system and its locale, so nothing is stated of it.
#[verifier::external_body]
fn io_error_text(e: &std::io::Error) -> (s: String) {
    e.to_string()
}

/// Window size for PTY.
#[derive(Debug, Clone, Copy, PartialEq, Eq, Structural)]
pub struct WindowSize {
    pub cols: u16,
    pub rows: u16,
}

impl WindowSize {
    pub fn new(cols: u16, rows: u16) -> (w: Self)
        ensures
            w == (WindowSize { cols, rows }),
    {
        WindowSize { cols, rows }
    }
}

impl Default for WindowSize {
    fn default() -> (w: Self)
        ensures
            w == (WindowSize { cols: 80, rows: 24 }),
    {
        WindowSize::new(80, 24)
    }
}

/// Configuration for spawning a PTY process.
#[derive(Debug, Clone)]
pub struct PtyConfig {
    pub program: String,
    pub args: Vec<String>,
    pub working_directory: Option<String>,
    pub env: Vec<(String, String)>,
    pub size: WindowSize,
}

impl PtyConfig {
    /// A configuration that runs `program` without arguments, in the current
    /// directory, with no extra environment, in an 80 by 24 window.
    pub fn new(program: String) -> (c: Self)
        ensures
            c.program == program,
            c.args@.len() == 0,
            c.working_directory is None,
            c.env@.len() == 0,
            c.size == (WindowSize { cols: 80, rows: 24 }),
    {
        PtyConfig {
            program,
            args: Vec::new(),
            working_directory: None,
            env: Vec::new(),
            size: WindowSize::default(),
        }
    }
}

/// The default shell on Unix: the `SHELL` setting when there is one, otherwise
/// `/bin/bash`.
pub fn unix_default_shell(shell: Option<String>) -> (s: String)
    ensures
        shell matches Some(v) ==> s@ == v@,
        shell is None ==> s@ == "/bin/bash"@,
{
    match shell {
        Some(v) => v,
        None => String::from_str("/bin/bash"),
    }
}

/// The default shell on Windows: `cmd.exe`, found on the search path.
pub fn windows_default_shell() -> (s: String)
    ensures
        s@ == "cmd.exe"@,
{
    String::from_str("cmd.exe")
}

/// PTY error type.
#[derive(Debug)]
pub enum PtyError {
    /// Failed to create PTY pair.
    Create(std::io::Error),
    /// Failed to spawn child process.
    Spawn(std::io::Error),
    /// I/O error during PTY operations.
    Io(std::io::Error),
    /// Failed to resize PTY.
    Resize(std::io::Error),
    /// PTY has been closed.
    Closed,
    /// Child process has exited.
    ProcessExited(i32),
    /// ConPTY not available (Windows).
    ConPtyNotAvailable,
}

/// The fixed part of the message of an error: the whole message for the variants
/// without an I/O error, the text before the I/O error's own text otherwise.
pub open spec fn message_head(e: PtyError) -> Seq<char> {
    match e {
        PtyError::Create(_) => "failed to create PTY: "@,
        PtyError::Spawn(_) => "failed to spawn process: "@,
        PtyError::Io(_) => "PTY I/O error: "@,
        PtyError::Resize(_) => "failed to resize PTY: "@,
        PtyError::Closed => "PTY has been closed"@,
        PtyError::ProcessExited(code) => "process exited with code "@ + signed_decimal(code as int),
        PtyError::ConPtyNotAvailable => "ConPTY not available on this Windows version"@,
    }
}

/// Whether the message of an error ends with the text of an I/O error.
pub open spec fn carries_io_error(e: PtyError) -> bool {
    e is Create || e is Spawn || e is Io || e is Resize
}

impl PtyError {
    /// The human-readable message of the error.
    pub fn message(&self) -> (s: String)
        ensures
            carries_io_error(*self) ==> message_head(*self).is_prefix_of(s@),
            !carries_io_error(*self) ==> s@ == message_head(*self),
    {
        let mut s = String::new();
        match self {
            PtyError::Create(e) => {
                string_push_str(&mut s, "failed to create PTY: ");
                let t = io_error_text(e);
                string_push_str(&mut s, t.as_str());
            },
            PtyError::Spawn(e) => {
                string_push_str(&mut s, "failed to spawn process: ");
                let t = io_error_text(e);
                string_push_str(&mut s, t.as_str());
            },
            PtyError::Io(e) => {
                string_push_str(&mut s, "PTY I/O error: ");
                let t = io_error_text(e);
                string_push_str(&mut s, t.as_str());
            },
            PtyError::Resize(e) => {
                string_push_str(&mut s, "failed to resize PTY: ");
                let t = io_error_text(e);
                string_push_str(&mut s, t.as_str());
            },
            PtyError::Closed => {
                string_push_str(&mut s, "PTY has been closed");
            },
            PtyError::ProcessExited(code) => {
                string_push_str(&mut s, "process exited with code ");
                push_signed_decimal(&mut s, *code);
            },
            PtyError::ConPtyNotAvailable => {
                string_push_str(&mut s, "ConPTY not available on this Windows version");
            },
        }
        assert(s@.subrange(0, message_head(*self).len() as int) =~= message_head(*self)) by {
            if carries_io_error(*self) {
            }
        }
        s
    }
}


/// The UTF-16 code units of a character.
pub open spec fn utf16_units(c: char) -> Seq<u16> {
    let v = c as u32;
    if v < 0x10000 {
        seq![v as u16]
    } else {
        seq![(0xD800 + (v - 0x10000) / 0x400) as u16, (0xDC00 + (v - 0x10000) % 0x400) as u16]
    }
}

/// The UTF-16 code units of a character sequence.
pub open spec fn utf16_of(s: Seq<char>) -> Seq<u16>
    decreases s.len(),
{
    if s.len() == 0 {
        Seq::<u16>::empty()
    } else {
        utf16_of(s.drop_last()) + utf16_units(s.last())
    }
}

/// An argument is quoted when it is empty or holds a space, a tab, a quote or a
/// backslash.
pub open spec fn needs_quoting(s: Seq<char>) -> bool {
    s.len() == 0 || s.contains(' ') || s.contains('\t') || s.contains('"') || s.contains('\\')
}

/// The first position at or after `i` that does not hold a backslash.
pub open spec fn run_end(s: Seq<char>, i: int) -> int
    decreases s.len() - i,
{
    if i >= s.len() || s[i] != '\\' {
        i
    } else {
        run_end(s, i + 1)
    }
}

/// The code units that stand for character `i` inside quotes: a backslash is doubled
/// when its run of backslashes ends at a quote or at the end (where the closing
/// quote follows), a quote is escaped with a backslash, anything else stands for
/// itself.
pub open spec fn quoted_unit(s: Seq<char>, i: int) -> Seq<u16> {
    if s[i] == '\\' {
        let e = run_end(s, i);
        if e >= s.len() || s[e] == '"' {
            seq![0x5Cu16, 0x5Cu16]
        } else {
            seq![0x5Cu16]
        }
    } else if s[i] == '"' {
        seq![0x5Cu16, 0x22u16]
    } else {
        utf16_units(s[i])
    }
}

/// The quoted code units of the first `i` characters.
pub open spec fn quoted_prefix(s: Seq<char>, i: int) -> Seq<u16>
    decreases i,
{
    if i <= 0 {
        Seq::<u16>::empty()
    } else {
        quoted_prefix(s, i - 1) + quoted_unit(s, i - 1)
    }
}

/// A Windows command-line argument as `CommandLineToArgvW` reads it back: the
/// argument itself when it needs no quotes, otherwise in quotes with quotes and the
/// backslashes before them (or before the closing quote) escaped.
pub open spec fn escape_argument_spec(s: Seq<char>) -> Seq<u16> {
    if needs_quoting(s) {
        seq![0x22u16] + quoted_prefix(s, s.len() as int) + seq![0x22u16]
    } else {
        utf16_of(s)
    }
}

/// Appends the UTF-16 code units of a character (`char::encode_utf16`).
fn push_utf16(out: &mut Vec<u16>, c: char)
    ensures
        final(out)@ == old(out)@ + utf16_units(c),
{
    let v = c as u32;
    if v < 0x10000 {
        out.push(v as u16);
    } else {
        let w = v - 0x10000;
        out.push((0xD800 + w / 0x400) as u16);
        out.push((0xDC00 + w % 0x400) as u16);
    }
    assert(out@ =~= old(out)@ + utf16_units(c));
}

/// Inside a run of backslashes every position ends the run at the same place.
proof fn lemma_run_end(s: Seq<char>, j: int, e: int)
    requires
        0 <= j <= e <= s.len(),
        forall|k: int| j <= k < e ==> s[k] == '\\',
        e == s.len() || s[e] != '\\',
    ensures
        run_end(s, j) == e,
    decreases e - j,
{
    if j < e {
        lemma_run_end(s, j + 1, e);
    }
}

/// Escape a Windows command-line argument.
#[verifier::spinoff_prover]
pub fn escape_argument(arg: &str) -> (r: Vec<u16>)
    ensures
        r@ == escape_argument_spec(arg@),
{
    let chars = crate::text::str_to_chars(arg);
    let n = chars.len();
    let ghost s = arg@;
    let mut quote = n == 0;
    let mut k: usize = 0;
    while k < n
        invariant
            chars@ == s,
            n == s.len(),
            k <= n,
            quote <==> (n == 0 || s.take(k as int).contains(' ') || s.take(k as int).contains('\t')
                || s.take(k as int).contains('"') || s.take(k as int).contains('\\')),
        decreases n - k,
    {
        let c = chars[k];
        proof {
            let t = s.take(k as int);
            let t1 = s.take(k + 1);
            assert(t1 =~= t.push(c));
            assert forall|x: char| t1.contains(x) <==> (t.contains(x) || x == c) by {
                if t1.contains(x) {
                    let j = choose|j: int| 0 <= j < t1.len() && t1[j] == x;
                    if j < k {
                        assert(t[j] == x);
                    }
                }
                if t.contains(x) {
                    let j = choose|j: int| 0 <= j < t.len() && t[j] == x;
                    assert(t1[j] == x);
                }
                if x == c {
                    assert(t1[k as int] == x);
                }
            }
        }
        if c == ' ' || c == '\t' || c == '"' || c == '\\' {
            quote = true;
        }
        k = k + 1;
    }
    assert(s.take(n as int) =~= s);
    let mut out: Vec<u16> = Vec::new();
    if !quote {
        let mut i: usize = 0;
        while i < n
            invariant
                chars@ == s,
                n == s.len(),
                i <= n,
                out@ == utf16_of(s.take(i as int)),
            decreases n - i,
        {
            push_utf16(&mut out, chars[i]);
            assert(s.take(i + 1).drop_last() =~= s.take(i as int));
            i = i + 1;
        }
        return out;
    }
    out.push(0x22u16);
    let mut i: usize = 0;
    while i < n
        invariant
            chars@ == s,
            n == s.len(),
            i <= n,
            out@ == seq![0x22u16] + quoted_prefix(s, i as int),
        decreases n - i,
    {
        let c = chars[i];
        if c == '\\' {
            let mut e: usize = i;
            while e < n && chars[e] == '\\'
                invariant
                    chars@ == s,
                    n == s.len(),
                    i <= e <= n,
                    forall|q: int| i <= q < e ==> s[q] == '\\',
                decreases n - e,
            {
                e = e + 1;
            }
            let double = e >= n || chars[e] == '"';
            let mut j: usize = i;
            while j < e
                invariant
                    chars@ == s,
                    n == s.len(),
                    i <= j <= e <= n,
                    forall|q: int| i <= q < e ==> s[q] == '\\',
                    e == n || s[e as int] != '\\',
                    double == (e >= n || s[e as int] == '"'),
                    out@ == seq![0x22u16] + quoted_prefix(s, j as int),
                decreases e - j,
            {
                proof {
                    lemma_run_end(s, j as int, e as int);
                }
                out.push(0x5Cu16);
                if double {
                    out.push(0x5Cu16);
                }
                assert(out@ =~= seq![0x22u16] + quoted_prefix(s, j + 1));
                j = j + 1;
            }
            i = e;
        } else if c == '"' {
            out.push(0x5Cu16);
            out.push(0x22u16);
            assert(out@ =~= seq![0x22u16] + quoted_prefix(s, i + 1));
            i = i + 1;
        } else {
            push_utf16(&mut out, c);
            assert(out@ =~= seq![0x22u16] + quoted_prefix(s, i + 1));
            i = i + 1;
        }
    }
    out.push(0x22u16);
    out
}

/// The command line a program is started with on Windows: the escaped program,
/// then each escaped argument after a space, then a terminating zero.
pub open spec fn command_line_spec(program: Seq<char>, args: Seq<Seq<char>>) -> Seq<u16>
    decreases args.len(),
{
    if args.len() == 0 {
        escape_argument_spec(program)
    } else {
        command_line_spec(program, args.drop_last()) + seq![0x20u16] + escape_argument_spec(args.last())
    }
}

/// Builds the zero-terminated UTF-16 command line for a program and its arguments.
pub fn windows_command_line(program: &str, args: &Vec<String>) -> (r: Vec<u16>)
    ensures
        r@ == command_line_spec(program@, crate::session::strings_view(args@)) + seq![0u16],
{
    let mut line = escape_argument(program);
    let mut i: usize = 0;
    while i < args.len()
        invariant
            i <= args@.len(),
            line@ == command_line_spec(program@, crate::session::strings_view(args@).take(i as int)),
        decreases args@.len() - i,
    {
        let ghost before = line@;
        line.push(0x20u16);
        let part = escape_argument(args[i].as_str());
        let mut j: usize = 0;
        while j < part.len()
            invariant
                j <= part@.len(),
                line@ == before + seq![0x20u16] + part@.take(j as int),
            decreases part@.len() - j,
        {
            line.push(part[j]);
            assert(line@ =~= before + seq![0x20u16] + part@.take(j + 1));
            j = j + 1;
        }
        proof {
            let sv = crate::session::strings_view(args@);
            assert(part@.take(part@.len() as int) =~= part@);
            assert(sv.take(i + 1).drop_last() =~= sv.take(i as int));
            assert(sv.take(i + 1).last() == args@[i as int]@);
        }
        i = i + 1;
    }
    assert(crate::session::strings_view(args@).take(args@.len() as int) =~= crate::session::strings_view(args@));
    line.push(0u16);
    line
}

/// Whether a string holds a NUL character (and so cannot be passed to `exec`).
pub open spec fn has_nul(s: Seq<char>) -> bool {
    s.contains('\0')
}

/// The argument vector a program is executed with on Unix: the program (or `sh`
/// when its name holds a NUL), then the arguments that hold no NUL.
pub open spec fn exec_argv_spec(program: Seq<char>, args: Seq<Seq<char>>) -> Seq<Seq<char>>
    decreases args.len(),
{
    if args.len() == 0 {
        seq![if has_nul(program) { "sh"@ } else { program }]
    } else {
        let init = exec_argv_spec(program, args.drop_last());
        if has_nul(args.last()) {
            init
        } else {
            init.push(args.last())
        }
    }
}

/// Whether a string holds a NUL character.
fn str_has_nul(s: &str) -> (b: bool)
    ensures
        b == has_nul(s@),
{
    let chars = crate::text::str_to_chars(s);
    let mut i: usize = 0;
    while i < chars.len()
        invariant
            chars@ == s@,
            i <= chars@.len(),
            forall|j: int| 0 <= j < i ==> chars@[j] != '\0',
        decreases chars@.len() - i,
    {
        if chars[i] == '\0' {
            assert(s@[i as int] == '\0');
            return true;
        }
        i = i + 1;
    }
    false
}

/// The argument vector a program is executed with on Unix (see [`exec_argv_spec`]).
pub fn exec_argv(program: &str, args: &Vec<String>) -> (r: Vec<String>)
    ensures
        crate::session::strings_view(r@) == exec_argv_spec(program@, crate::session::strings_view(args@)),
{
    let mut argv: Vec<String> = Vec::new();
    if str_has_nul(program) {
        argv.push(String::from_str("sh"));
    } else {
        argv.push(String::from_str(program));
    }
    let ghost sv = crate::session::strings_view(args@);
    assert(crate::session::strings_view(argv@) =~= exec_argv_spec(program@, sv.take(0)));
    let mut i: usize = 0;
    while i < args.len()
        invariant
            i <= args@.len(),
            sv == crate::session::strings_view(args@),
            crate::session::strings_view(argv@) == exec_argv_spec(program@, sv.take(i as int)),
        decreases args@.len() - i,
    {
        proof {
            assert(sv.take(i + 1).drop_last() =~= sv.take(i as int));
            assert(sv.take(i + 1).last() == args@[i as int]@);
        }
        if !str_has_nul(args[i].as_str()) {
            let a = args[i].clone();
            let ghost before = argv@;
            argv.push(a);
            assert(crate::session::strings_view(argv@) =~= crate::session::strings_view(before).push(args@[i as int]@));
        }
        i = i + 1;
    }
    assert(sv.take(args@.len() as int) =~= sv);
    argv
}

/// Whether the environment settings name `TERM`.
pub fn sets_term(env: &Vec<(String, String)>) -> (b: bool)
    ensures
        b == exists|i: int| 0 <= i < env@.len() && env@[i].0@ == "TERM"@,
{
    let term = String::from_str("TERM");
    let mut i: usize = 0;
    while i < env.len()
        invariant
            term@ == "TERM"@,
            i <= env@.len(),
            forall|j: int| 0 <= j < i ==> env@[j].0@ != "TERM"@,
        decreases env@.len() - i,
    {
        if env[i].0 == term {
            return true;
        }
        i = i + 1;
    }
    false
}

/// The exit code a child's wait status stands for, in the POSIX layout the `libc`
/// crate reads it with (`WIFEXITED`, `WEXITSTATUS`, `WIFSIGNALED`, `WTERMSIG`): the
/// exit status when the child exited, the negated signal number when a signal
/// ended it, otherwise -1.
pub open spec fn exit_code_spec(status: i32) -> int {
    let low = status & 0x7f;
    if low == 0 {
        ((status >> 8) & 0xff) as int
    } else if low != 0x7f {
        -low
    } else {
        -1
    }
}

/// The exit code a child's wait status stands for (see [`exit_code_spec`]).
pub fn exit_code(status: i32) -> (c: i32)
    ensures
        c == exit_code_spec(status),
{
    let low = status & 0x7f;
    assert(0 <= low <= 0x7f) by (bit_vector)
        requires
            low == status & 0x7f,
    ;
    if low == 0 {
        (status >> 8) & 0xff
    } else if low != 0x7f {
        -low
    } else {
        -1
    }
}

/// Holds no NUL character.
pub open spec fn nul_free() -> spec_fn(Seq<char>) -> bool {
    |a: Seq<char>| !a.contains('\0')
}

/// The argument list a Unix child is started with: the program first (`sh` in its
/// place when it holds a NUL character), then the arguments in order, leaving out any
/// that holds a NUL character.
pub proof fn lemma_exec_argv_shape(program: Seq<char>, args: Seq<Seq<char>>)
    ensures
        exec_argv_spec(program, args) == seq![if program.contains('\0') { "sh"@ } else { program }] + args.filter(
            nul_free(),
        ),
    decreases args.len(),
{
    reveal(Seq::filter);
    let keep = nul_free();
    let head = seq![if program.contains('\0') { "sh"@ } else { program }];
    if args.len() == 0 {
        assert(args.filter(keep) == args);
        assert(head + args.filter(keep) =~= head);
    } else {
        lemma_exec_argv_shape(program, args.drop_last());
        assert(keep(args.last()) == !has_nul(args.last()));
        assert(args.filter(keep) == (if keep(args.last()) {
            args.drop_last().filter(keep).push(args.last())
        } else {
            args.drop_last().filter(keep)
        }));
        if keep(args.last()) {
            assert(head + args.drop_last().filter(keep).push(args.last()) =~= (head + args.drop_last().filter(keep)).push(
                args.last(),
            ));
        }
    }
}

/// A child that exited reports its exit code (the second byte of the status); one
/// killed by a signal reports the signal's number negated.
pub proof fn lemma_exit_codes(code: i32, signal: i32)
    requires
        0 <= code < 256,
        1 <= signal < 0x7f,
    ensures
        exit_code_spec(code << 8) == code,
        exit_code_spec(signal) == -signal,
{
    assert((code << 8) & 0x7f == 0 && ((code << 8) >> 8) & 0xff == code) by (bit_vector)
        requires
            0 <= code < 256,
    ;
    assert(signal & 0x7f == signal) by (bit_vector)
        requires
            1 <= signal < 0x7f,
    ;
}

/// `n` backslashes.
pub open spec fn backslashes(n: nat) -> Seq<char> {
    Seq::new(n, |i: int| '\\')
}

/// How Windows programs read one argument from a command line (the rules of
/// `CommandLineToArgvW`): the characters read so far, whether a quote is open, the
/// backslashes not yet placed, and whether the argument has ended.
pub struct ArgvState {
    pub out: Seq<char>,
    pub quoted: bool,
    pub slashes: nat,
    pub done: bool,
}

/// One character of a command line: backslashes are held back; before a quote an
/// even number of them stands for half as many and the quote opens or closes quoting,
/// an odd number for half as many (rounded down) and a literal quote; before anything
/// else they stand for themselves; a space or tab outside quotes ends the argument.
pub open spec fn argv_step(st: ArgvState, c: char) -> ArgvState {
    if st.done {
        st
    } else if c == '\\' {
        ArgvState { slashes: st.slashes + 1, ..st }
    } else if c == '"' {
        if st.slashes % 2 == 0 {
            ArgvState { out: st.out + backslashes(st.slashes / 2), quoted: !st.quoted, slashes: 0, ..st }
        } else {
            ArgvState { out: st.out + backslashes(st.slashes / 2) + seq!['"'], slashes: 0, ..st }
        }
    } else if (c == ' ' || c == '\t') && !st.quoted {
        ArgvState { out: st.out + backslashes(st.slashes), slashes: 0, done: true, ..st }
    } else {
        ArgvState { out: st.out + backslashes(st.slashes) + seq![c], slashes: 0, ..st }
    }
}

/// [`argv_step`] over a sequence of characters.
pub open spec fn argv_fold(st: ArgvState, t: Seq<char>) -> ArgvState
    decreases t.len(),
{
    if t.len() == 0 {
        st
    } else {
        argv_fold(argv_step(st, t[0]), t.drop_first())
    }
}

/// The reader's state before a command line: nothing read, outside quotes.
pub open spec fn argv_start() -> ArgvState {
    ArgvState { out: Seq::<char>::empty(), quoted: false, slashes: 0, done: false }
}

/// The first argument of a command line.
pub open spec fn first_argument(t: Seq<char>) -> Seq<char> {
    let st = argv_fold(argv_start(), t);
    st.out + backslashes(st.slashes)
}

/// The reader never ends the argument inside the command line: the whole line is a
/// single argument, and no second one follows.
pub open spec fn single_argument(t: Seq<char>) -> bool {
    !argv_fold(argv_start(), t).done
}

/// The characters that stand for character `i` inside quotes (see [`quoted_unit`]).
pub open spec fn quoted_char_unit(s: Seq<char>, i: int) -> Seq<char> {
    if s[i] == '\\' {
        let e = run_end(s, i);
        if e >= s.len() || s[e] == '"' {
            seq!['\\', '\\']
        } else {
            seq!['\\']
        }
    } else if s[i] == '"' {
        seq!['\\', '"']
    } else {
        seq![s[i]]
    }
}

/// The quoted characters of the first `i` characters.
pub open spec fn quoted_chars(s: Seq<char>, i: int) -> Seq<char>
    decreases i,
{
    if i <= 0 {
        Seq::<char>::empty()
    } else {
        quoted_chars(s, i - 1) + quoted_char_unit(s, i - 1)
    }
}

/// An argument as written on a command line, before the UTF-16 encoding.
pub open spec fn escaped_arg(s: Seq<char>) -> Seq<char> {
    if needs_quoting(s) {
        seq!['"'] + quoted_chars(s, s.len() as int) + seq!['"']
    } else {
        s
    }
}

proof fn lemma_argv_fold_concat(st: ArgvState, a: Seq<char>, b: Seq<char>)
    ensures
        argv_fold(st, a + b) == argv_fold(argv_fold(st, a), b),
    decreases a.len(),
{
    if a.len() == 0 {
        assert(a + b =~= b);
    } else {
        assert((a + b)[0] == a[0]);
        assert((a + b).drop_first() =~= a.drop_first() + b);
        lemma_argv_fold_concat(argv_step(st, a[0]), a.drop_first(), b);
    }
}

proof fn lemma_argv_fold_one(st: ArgvState, c: char)
    ensures
        argv_fold(st, seq![c]) == argv_step(st, c),
{
    let t = seq![c];
    assert(t[0] == c);
    assert(t.drop_first() =~= Seq::<char>::empty());
    assert(argv_fold(argv_step(st, c), Seq::<char>::empty()) == argv_step(st, c));
}

proof fn lemma_argv_fold_two(st: ArgvState, a: char, b: char)
    ensures
        argv_fold(st, seq![a, b]) == argv_step(argv_step(st, a), b),
{
    lemma_argv_fold_concat(st, seq![a], seq![b]);
    assert(seq![a] + seq![b] =~= seq![a, b]);
    lemma_argv_fold_one(st, a);
    lemma_argv_fold_one(argv_step(st, a), b);
}

/// Where the run of backslashes that ends just before `i` starts.
pub open spec fn run_start(s: Seq<char>, i: int) -> int
    decreases i,
{
    if i <= 0 || s[i - 1] != '\\' {
        i
    } else {
        run_start(s, i - 1)
    }
}

/// How many backslashes each backslash of the run starting at `r` is written as.
pub open spec fn run_factor(s: Seq<char>, r: int) -> nat {
    if run_end(s, r) >= s.len() || s[run_end(s, r)] == '"' {
        2
    } else {
        1
    }
}

proof fn lemma_run_start(s: Seq<char>, i: int)
    requires
        0 <= i <= s.len(),
    ensures
        0 <= run_start(s, i) <= i,
        forall|j: int| run_start(s, i) <= j < i ==> s[j] == '\\',
        run_start(s, i) == 0 || s[run_start(s, i) - 1] != '\\',
    decreases i,
{
    if i > 0 && s[i - 1] == '\\' {
        lemma_run_start(s, i - 1);
    }
}

proof fn lemma_run_end_from(s: Seq<char>, r: int, j: int)
    requires
        0 <= r <= j <= s.len(),
        forall|k: int| r <= k < j ==> s[k] == '\\',
    ensures
        run_end(s, r) == run_end(s, j),
    decreases j - r,
{
    if r < j {
        lemma_run_end_from(s, r + 1, j);
    }
}

/// The state after the opening quote and the quoted characters of the first `i`
/// characters: inside quotes, the characters before the current run of backslashes
/// read, and that run held back (doubled when it ends at a quote or at the end).
proof fn lemma_quoted_prefix_read(s: Seq<char>, i: int)
    requires
        0 <= i <= s.len(),
    ensures
        argv_fold(ArgvState { out: Seq::<char>::empty(), quoted: true, slashes: 0, done: false }, quoted_chars(s, i))
            == (ArgvState {
            out: s.take(run_start(s, i)),
            quoted: true,
            slashes: ((i - run_start(s, i)) * run_factor(s, run_start(s, i))) as nat,
            done: false,
        }),
    decreases i,
{
    let st0 = ArgvState { out: Seq::<char>::empty(), quoted: true, slashes: 0, done: false };
    if i == 0 {
        assert(s.take(0) =~= Seq::<char>::empty());
    } else {
        lemma_quoted_prefix_read(s, i - 1);
        lemma_argv_fold_concat(st0, quoted_chars(s, i - 1), quoted_char_unit(s, i - 1));
        let r = run_start(s, i - 1);
        lemma_run_start(s, i - 1);
        let prev = argv_fold(st0, quoted_chars(s, i - 1));
        let u = quoted_char_unit(s, i - 1);
        let c = s[i - 1];
        if c == '\\' {
            assert(run_start(s, i) == r);
            lemma_run_end_from(s, r, i - 1);
            let f = run_factor(s, r);
            assert(u.len() == f);
            if f == 2 {
                assert(u == seq!['\\', '\\']);
                lemma_argv_fold_two(prev, '\\', '\\');
            } else {
                assert(u == seq!['\\']);
                lemma_argv_fold_one(prev, '\\');
            }
            assert((i - r) * f == (i - 1 - r) * f + f) by (nonlinear_arith);
        } else {
            assert(run_start(s, i) == i);
            let k = i - 1 - r;
            lemma_run_end_from(s, r, i - 1);
            assert(run_end(s, i - 1) == i - 1);
            assert(s.take(i) =~= s.take(r) + backslashes(k as nat) + seq![c]) by {
                assert forall|j: int| 0 <= j < i implies #[trigger] s.take(i)[j] == (s.take(r) + backslashes(k as nat) + seq![c])[j] by {
                    if r <= j < i - 1 {
                        assert(s[j] == '\\');
                    }
                }
            }
            if c == '"' {
                assert(run_factor(s, r) == 2);
                let m = (k * 2) as nat;
                assert(prev.slashes == m);
                assert(u == seq!['\\', '"']);
                lemma_argv_fold_two(prev, '\\', '"');
                assert((m + 1) % 2 == 1 && (m + 1) / 2 == k) by (nonlinear_arith)
                    requires
                        m == k * 2,
                        k >= 0,
                ;
            } else {
                assert(run_factor(s, r) == 1);
                assert((i - 1 - r) * run_factor(s, r) == k) by (nonlinear_arith)
                    requires
                        run_factor(s, r) == 1,
                        k == i - 1 - r,
                ;
                assert(prev.slashes == k);
                assert(u == seq![c]);
                lemma_argv_fold_one(prev, c);
            }
        }
    }
}

proof fn lemma_utf16_concat(a: Seq<char>, b: Seq<char>)
    ensures
        utf16_of(a + b) == utf16_of(a) + utf16_of(b),
    decreases b.len(),
{
    if b.len() == 0 {
        assert(a + b =~= a);
        assert(utf16_of(a) + utf16_of(b) =~= utf16_of(a));
    } else {
        assert((a + b).drop_last() =~= a + b.drop_last());
        assert((a + b).last() == b.last());
        lemma_utf16_concat(a, b.drop_last());
        assert(utf16_of(a) + utf16_of(b.drop_last()) + utf16_units(b.last())
            =~= utf16_of(a) + (utf16_of(b.drop_last()) + utf16_units(b.last())));
    }
}

proof fn lemma_utf16_one(c: char)
    ensures
        utf16_of(seq![c]) == utf16_units(c),
{
    let t = seq![c];
    assert(t.drop_last() =~= Seq::<char>::empty());
    assert(t.last() == c);
    assert(utf16_of(Seq::<char>::empty()) == Seq::<u16>::empty());
    assert(utf16_of(t) == utf16_of(t.drop_last()) + utf16_units(t.last()));
    assert(Seq::<u16>::empty() + utf16_units(c) =~= utf16_units(c));
}

proof fn lemma_utf16_two(a: char, b: char)
    ensures
        utf16_of(seq![a, b]) == utf16_units(a) + utf16_units(b),
{
    assert(seq![a, b] =~= seq![a] + seq![b]);
    lemma_utf16_concat(seq![a], seq![b]);
    lemma_utf16_one(a);
    lemma_utf16_one(b);
}

proof fn lemma_quoted_chars_utf16(s: Seq<char>, i: int)
    requires
        0 <= i <= s.len(),
    ensures
        utf16_of(quoted_chars(s, i)) == quoted_prefix(s, i),
    decreases i,
{
    if i == 0 {
    } else {
        lemma_quoted_chars_utf16(s, i - 1);
        lemma_utf16_concat(quoted_chars(s, i - 1), quoted_char_unit(s, i - 1));
        let c = s[i - 1];
        assert(('\\' as u32) == 0x5C && ('"' as u32) == 0x22);
        if c == '\\' {
            let e = run_end(s, i - 1);
            if e >= s.len() || s[e] == '"' {
                lemma_utf16_two('\\', '\\');
            } else {
                lemma_utf16_one('\\');
            }
        } else if c == '"' {
            lemma_utf16_two('\\', '"');
        } else {
            lemma_utf16_one(c);
        }
    }
}

/// What `escape_argument` returns is the UTF-16 encoding of a command-line argument
/// that Windows programs read back as exactly one argument, the argument itself.
pub proof fn lemma_escape_argument_read_back(s: Seq<char>)
    ensures
        escape_argument_spec(s) == utf16_of(escaped_arg(s)),
        single_argument(escaped_arg(s)),
        first_argument(escaped_arg(s)) == s,
{
    lemma_escaped_arg_read_back(s);
    if needs_quoting(s) {
        let q = quoted_chars(s, s.len() as int);
        lemma_quoted_chars_utf16(s, s.len() as int);
        lemma_utf16_concat(seq!['"'] + q, seq!['"']);
        lemma_utf16_concat(seq!['"'], q);
        lemma_utf16_one('"');
        assert(('"' as u32) == 0x22);
    }
}

/// Windows programs read an escaped argument back as the argument itself.
proof fn lemma_escaped_arg_read_back(s: Seq<char>)
    ensures
        single_argument(escaped_arg(s)),
        first_argument(escaped_arg(s)) == s,
        !argv_fold(argv_start(), escaped_arg(s)).quoted,
        escaped_arg(s).len() > 0,
        escaped_arg(s)[0] != ' ' && escaped_arg(s)[0] != '\t',
{
    let st0 = argv_start();
    if needs_quoting(s) {
        let q = quoted_chars(s, s.len() as int);
        let st1 = ArgvState { out: Seq::<char>::empty(), quoted: true, slashes: 0, done: false };
        lemma_argv_fold_concat(st0, seq!['"'] + q, seq!['"']);
        lemma_argv_fold_concat(st0, seq!['"'], q);
        assert(argv_fold(st0, seq!['"']) == st1) by {
            lemma_argv_fold_one(st0, '"');
            assert(backslashes(0) =~= Seq::<char>::empty());
        }
        lemma_quoted_prefix_read(s, s.len() as int);
        let r = run_start(s, s.len() as int);
        lemma_run_start(s, s.len() as int);
        let k = s.len() - r;
        lemma_run_end_from(s, r, s.len() as int);
        assert(run_factor(s, r) == 2);
        let mid = argv_fold(st1, q);
        assert(mid.slashes == k * 2);
        assert((k * 2) % 2 == 0 && (k * 2) / 2 == k) by (nonlinear_arith)
            requires
                k >= 0,
        ;
        lemma_argv_fold_one(mid, '"');
        assert(s =~= s.take(r) + backslashes(k as nat)) by {
            assert forall|j: int| 0 <= j < s.len() implies #[trigger] s[j] == (s.take(r) + backslashes(k as nat))[j] by {
                if r <= j {
                    assert(s[j] == '\\');
                }
            }
        }
        assert(backslashes(0) =~= Seq::<char>::empty());
        assert(escaped_arg(s) == seq!['"'] + q + seq!['"']);
        assert((seq!['"'] + q + seq!['"'])[0] == '"');
    } else {
        lemma_plain_arg(st0, s);
        assert(backslashes(0) =~= Seq::<char>::empty());
        assert(Seq::<char>::empty() + s + Seq::<char>::empty() =~= s);
        assert(s.contains(s[0]));
    }
}

proof fn lemma_plain_arg(st: ArgvState, s: Seq<char>)
    requires
        !st.done,
        st.slashes == 0,
        !s.contains(' '),
        !s.contains('\t'),
        !s.contains('"'),
        !s.contains('\\'),
    ensures
        argv_fold(st, s) == (ArgvState { out: st.out + s, ..st }),
    decreases s.len(),
{
    if s.len() == 0 {
        assert(st.out + s =~= st.out);
    } else {
        let c = s[0];
        assert(c != ' ' && c != '\t' && c != '"' && c != '\\') by {
            assert(s.contains(c));
        }
        let t = s.drop_first();
        assert(!t.contains(' ') && !t.contains('\t') && !t.contains('"') && !t.contains('\\')) by {
            if t.contains(' ') || t.contains('\t') || t.contains('"') || t.contains('\\') {
                let j = choose|j: int| 0 <= j < t.len() && (t[j] == ' ' || t[j] == '\t' || t[j] == '"' || t[j] == '\\');
                assert(s[j + 1] == t[j]);
                assert(s.contains(t[j]));
            }
        }
        assert(backslashes(0) =~= Seq::<char>::empty());
        let st1 = argv_step(st, c);
        assert(st1 == ArgvState { out: st.out + seq![c], ..st });
        lemma_plain_arg(st1, t);
        assert(st.out + seq![c] + t =~= st.out + s);
    }
}

/// How Windows programs read all the arguments of a command line: the arguments read
/// so far, the one being read, and whether the reader is between arguments.
pub struct ArgvList {
    pub args: Seq<Seq<char>>,
    pub cur: ArgvState,
    pub between: bool,
}

/// One character of a command line: between arguments spaces and tabs are skipped and
/// anything else starts an argument; inside one, [`argv_step`] reads it, and the
/// argument is complete when a space or tab outside quotes ends it.
pub open spec fn list_step(st: ArgvList, c: char) -> ArgvList {
    if st.between {
        if c == ' ' || c == '\t' {
            st
        } else {
            ArgvList { cur: argv_step(argv_start(), c), between: false, ..st }
        }
    } else {
        let n = argv_step(st.cur, c);
        if n.done {
            ArgvList { args: st.args.push(n.out), cur: argv_start(), between: true }
        } else {
            ArgvList { cur: n, ..st }
        }
    }
}

/// [`list_step`] over a sequence of characters.
pub open spec fn list_fold(st: ArgvList, t: Seq<char>) -> ArgvList
    decreases t.len(),
{
    if t.len() == 0 {
        st
    } else {
        list_fold(list_step(st, t[0]), t.drop_first())
    }
}

/// All the arguments of a command line.
pub open spec fn all_arguments(t: Seq<char>) -> Seq<Seq<char>> {
    let st = list_fold(ArgvList { args: Seq::<Seq<char>>::empty(), cur: argv_start(), between: true }, t);
    if st.between {
        st.args
    } else {
        st.args.push(st.cur.out + backslashes(st.cur.slashes))
    }
}

/// A command line as characters: the escaped program, then a space and the escaped
/// form of each argument.
pub open spec fn command_line_chars(program: Seq<char>, args: Seq<Seq<char>>) -> Seq<char>
    decreases args.len(),
{
    if args.len() == 0 {
        escaped_arg(program)
    } else {
        command_line_chars(program, args.drop_last()) + seq![' '] + escaped_arg(args.last())
    }
}

proof fn lemma_list_fold_concat(st: ArgvList, a: Seq<char>, b: Seq<char>)
    ensures
        list_fold(st, a + b) == list_fold(list_fold(st, a), b),
    decreases a.len(),
{
    if a.len() == 0 {
        assert(a + b =~= b);
    } else {
        assert((a + b)[0] == a[0]);
        assert((a + b).drop_first() =~= a.drop_first() + b);
        lemma_list_fold_concat(list_step(st, a[0]), a.drop_first(), b);
    }
}

proof fn lemma_argv_done_sticky(st: ArgvState, t: Seq<char>)
    requires
        st.done,
    ensures
        argv_fold(st, t) == st,
    decreases t.len(),
{
    if t.len() > 0 {
        lemma_argv_done_sticky(argv_step(st, t[0]), t.drop_first());
    }
}

/// Inside an argument that the rest of the text does not end, the list reader reads
/// exactly as the one-argument reader does.
proof fn lemma_list_mirrors(args: Seq<Seq<char>>, cur: ArgvState, t: Seq<char>)
    requires
        !argv_fold(cur, t).done,
    ensures
        list_fold(ArgvList { args, cur, between: false }, t) == (ArgvList { args, cur: argv_fold(cur, t), between: false }),
    decreases t.len(),
{
    if t.len() > 0 {
        let n = argv_step(cur, t[0]);
        if n.done {
            lemma_argv_done_sticky(n, t.drop_first());
        }
        lemma_list_mirrors(args, n, t.drop_first());
    }
}

/// Reading an escaped argument from between arguments.
proof fn lemma_list_reads_escaped(args: Seq<Seq<char>>, s: Seq<char>)
    ensures
        list_fold(ArgvList { args, cur: argv_start(), between: true }, escaped_arg(s)) == (ArgvList {
            args,
            cur: argv_fold(argv_start(), escaped_arg(s)),
            between: false,
        }),
{
    lemma_escaped_arg_read_back(s);
    let e = escaped_arg(s);
    let st = ArgvList { args, cur: argv_start(), between: true };
    let n = argv_step(argv_start(), e[0]);
    assert(list_step(st, e[0]) == (ArgvList { args, cur: n, between: false }));
    assert(argv_fold(argv_start(), e) == argv_fold(n, e.drop_first()));
    lemma_list_mirrors(args, n, e.drop_first());
}

/// The reader's state after a command line: the program and all arguments but the
/// last read, and the last being read.
proof fn lemma_list_reads_line(program: Seq<char>, args: Seq<Seq<char>>)
    ensures
        ({
            let all = seq![program] + args;
            list_fold(ArgvList { args: Seq::<Seq<char>>::empty(), cur: argv_start(), between: true }, command_line_chars(
                program,
                args,
            )) == (ArgvList {
                args: all.drop_last(),
                cur: argv_fold(argv_start(), escaped_arg(all.last())),
                between: false,
            })
        }),
    decreases args.len(),
{
    let st0 = ArgvList { args: Seq::<Seq<char>>::empty(), cur: argv_start(), between: true };
    let all = seq![program] + args;
    if args.len() == 0 {
        lemma_list_reads_escaped(Seq::<Seq<char>>::empty(), program);
        assert(all =~= seq![program]);
        assert(all.drop_last() =~= Seq::<Seq<char>>::empty());
    } else {
        let prev = command_line_chars(program, args.drop_last());
        let pall = seq![program] + args.drop_last();
        lemma_list_reads_line(program, args.drop_last());
        lemma_list_fold_concat(st0, prev + seq![' '], escaped_arg(args.last()));
        lemma_list_fold_concat(st0, prev, seq![' ']);
        let x = pall.last();
        lemma_escaped_arg_read_back(x);
        let c = argv_fold(argv_start(), escaped_arg(x));
        let mid = ArgvList { args: pall.drop_last(), cur: c, between: false };
        let after = ArgvList { args: pall.drop_last().push(x), cur: argv_start(), between: true };
        assert(argv_step(c, ' ').done && argv_step(c, ' ').out == c.out + backslashes(c.slashes));
        assert(list_step(mid, ' ') == after);
        assert(seq![' '].drop_first() =~= Seq::<char>::empty());
        assert(list_fold(mid, seq![' ']) == list_fold(after, Seq::<char>::empty()));
        lemma_list_reads_escaped(pall.drop_last().push(x), args.last());
        assert(pall.drop_last().push(x) =~= all.drop_last());
        assert(all.last() == args.last());
    }
}

/// What `windows_command_line` builds, before its terminating NUL, is the UTF-16
/// encoding of a command line that Windows programs split into exactly the program
/// followed by the arguments, each read back as it was given.
pub proof fn lemma_command_line_read_back(program: Seq<char>, args: Seq<Seq<char>>)
    ensures
        command_line_spec(program, args) == utf16_of(command_line_chars(program, args)),
        all_arguments(command_line_chars(program, args)) == seq![program] + args,
    decreases args.len(),
{
    let all = seq![program] + args;
    lemma_list_reads_line(program, args);
    lemma_escaped_arg_read_back(all.last());
    assert(all.drop_last().push(all.last()) =~= all);
    lemma_escape_argument_read_back(program);
    if args.len() > 0 {
        lemma_command_line_read_back(program, args.drop_last());
        let prev = command_line_chars(program, args.drop_last());
        lemma_escape_argument_read_back(args.last());
        lemma_utf16_concat(prev + seq![' '], escaped_arg(args.last()));
        lemma_utf16_concat(prev, seq![' ']);
        lemma_utf16_one(' ');
        assert((' ' as u32) == 0x20);
    }
}
} // verus!
