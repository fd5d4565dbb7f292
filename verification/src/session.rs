//! Session bookkeeping: the table of sessions by name, how unnamed sessions are
//! numbered, how a command becomes a program and its arguments, and the messages
//! for sessions that are missing or already there.
use vstd::prelude::*;
use vstd::string::StringExecFns;
use crate::text::{
    decimal, push_decimal, str_to_chars, string_from_chars, string_push, string_push_str, trim_bounds, trim_ws,
};

verus! {

/// Session info for IPC responses.
#[derive(Debug, Clone)]
pub struct SessionInfo {
    pub name: String,
    pub command: String,
    pub created_at: u64,
    pub alive: bool,
}

/// The abstract content of a [`SessionInfo`].
pub struct SessionInfoModel {
    pub name: Seq<char>,
    pub command: Seq<char>,
    pub created_at: u64,
    pub alive: bool,
}

impl View for SessionInfo {
    type V = SessionInfoModel;

    open spec fn view(&self) -> SessionInfoModel {
        SessionInfoModel {
            name: self.name@,
            command: self.command@,
            created_at: self.created_at,
            alive: self.alive,
        }
    }
}


/// The message for a session name that is not in use.
pub open spec fn not_found_text(name: Seq<char>) -> Seq<char> {
    "Session '"@ + name + "' not found"@
}

/// The message for a session name that is already in use.
pub open spec fn already_exists_text(name: Seq<char>) -> Seq<char> {
    "Session '"@ + name + "' already exists"@
}

/// The error for a session name that is not in use.
pub fn session_not_found(name: &str) -> (s: String)
    ensures
        s@ == not_found_text(name@),
{
    let mut s = String::from_str("Session '");
    string_push_str(&mut s, name);
    string_push_str(&mut s, "' not found");
    s
}

/// The error for a session name that is already in use.
pub fn session_already_exists(name: &str) -> (s: String)
    ensures
        s@ == already_exists_text(name@),
{
    let mut s = String::from_str("Session '");
    string_push_str(&mut s, name);
    string_push_str(&mut s, "' already exists");
    s
}

/// The words split so far, the word being read and whether a quote is open.
pub struct WordsState {
    pub words: Seq<Seq<char>>,
    pub current: Seq<char>,
    pub in_quote: bool,
}

/// One character of a Windows argument string: a double quote opens or closes
/// quoting (and is dropped); a space or tab outside quotes ends a non-empty word;
/// anything else joins the current word.
pub open spec fn words_step(st: WordsState, ch: char) -> WordsState {
    if ch == '"' {
        WordsState { in_quote: !st.in_quote, ..st }
    } else if (ch == ' ' || ch == '\t') && !st.in_quote {
        if st.current.len() > 0 {
            WordsState { words: st.words.push(st.current), current: Seq::<char>::empty(), ..st }
        } else {
            st
        }
    } else {
        WordsState { current: st.current.push(ch), ..st }
    }
}

/// [`words_step`] over the first `k` characters.
pub open spec fn words_upto(s: Seq<char>, k: int) -> WordsState
    decreases k,
{
    if k <= 0 {
        WordsState { words: Seq::<Seq<char>>::empty(), current: Seq::<char>::empty(), in_quote: false }
    } else {
        words_step(words_upto(s, k - 1), s[k - 1])
    }
}

/// The words of a Windows argument string: split on spaces and tabs outside double
/// quotes, quotes removed, empty words dropped.
pub open spec fn shell_words_spec(s: Seq<char>) -> Seq<Seq<char>> {
    let st = words_upto(s, s.len() as int);
    if st.current.len() > 0 {
        st.words.push(st.current)
    } else {
        st.words
    }
}

/// [`words_step`] over a sequence, from a given state.
pub open spec fn words_run(st: WordsState, s: Seq<char>) -> WordsState
    decreases s.len(),
{
    if s.len() == 0 {
        st
    } else {
        words_step(words_run(st, s.drop_last()), s.last())
    }
}

/// The state before any character: no words, an empty word, no quote open.
pub open spec fn words_start() -> WordsState {
    WordsState { words: Seq::<Seq<char>>::empty(), current: Seq::<char>::empty(), in_quote: false }
}

proof fn lemma_words_upto_run(s: Seq<char>, k: int)
    requires
        0 <= k <= s.len(),
    ensures
        words_upto(s, k) == words_run(words_start(), s.take(k)),
    decreases k,
{
    if k > 0 {
        lemma_words_upto_run(s, k - 1);
        assert(s.take(k).drop_last() =~= s.take(k - 1));
        assert(s.take(k).last() == s[k - 1]);
    } else {
        assert(s.take(0) =~= Seq::<char>::empty());
    }
}

proof fn lemma_words_run_concat(st: WordsState, a: Seq<char>, b: Seq<char>)
    ensures
        words_run(st, a + b) == words_run(words_run(st, a), b),
    decreases b.len(),
{
    if b.len() == 0 {
        assert(a + b =~= a);
    } else {
        lemma_words_run_concat(st, a, b.drop_last());
        assert((a + b).drop_last() =~= a + b.drop_last());
        assert((a + b).last() == b.last());
    }
}

/// The words already split off stay in front of everything that follows.
proof fn lemma_words_run_prefix(st: WordsState, b: Seq<char>)
    ensures
        ({
            let free = words_run(WordsState { words: Seq::<Seq<char>>::empty(), ..st }, b);
            words_run(st, b) == (WordsState { words: st.words + free.words, ..free })
        }),
    decreases b.len(),
{
    if b.len() == 0 {
        assert(st.words + Seq::<Seq<char>>::empty() =~= st.words);
    } else {
        lemma_words_run_prefix(st, b.drop_last());
        let free0 = words_run(WordsState { words: Seq::<Seq<char>>::empty(), ..st }, b.drop_last());
        assert((st.words + free0.words).push(free0.current) =~= st.words + free0.words.push(free0.current));
    }
}

/// Without quotes and separators, every character joins the current word.
proof fn lemma_words_run_plain(st: WordsState, t: Seq<char>)
    requires
        !t.contains(' '),
        !t.contains('\t'),
        !t.contains('"'),
    ensures
        words_run(st, t) == (WordsState { current: st.current + t, ..st }),
    decreases t.len(),
{
    if t.len() == 0 {
        assert(st.current + t =~= st.current);
    } else {
        let d = t.drop_last();
        assert(!d.contains(' ') && !d.contains('\t') && !d.contains('"')) by {
            if d.contains(' ') || d.contains('\t') || d.contains('"') {
                let j = choose|j: int| 0 <= j < d.len() && (d[j] == ' ' || d[j] == '\t' || d[j] == '"');
                assert(t[j] == d[j]);
                assert(t.contains(d[j]));
            }
        }
        assert(t.contains(t.last()));
        lemma_words_run_plain(st, d);
        assert((st.current + d).push(t.last()) =~= st.current + t);
    }
}

/// Without quotes, no quote opens or closes.
proof fn lemma_words_run_unquoted(st: WordsState, a: Seq<char>)
    requires
        !a.contains('"'),
    ensures
        words_run(st, a).in_quote == st.in_quote,
    decreases a.len(),
{
    if a.len() > 0 {
        let d = a.drop_last();
        assert(!d.contains('"')) by {
            if d.contains('"') {
                let j = choose|j: int| 0 <= j < d.len() && d[j] == '"';
                assert(a[j] == d[j]);
            }
        }
        assert(a.contains(a.last()));
        lemma_words_run_unquoted(st, d);
    }
}

proof fn lemma_words_spec_run(s: Seq<char>)
    ensures
        ({
            let st = words_run(words_start(), s);
            shell_words_spec(s) == (if st.current.len() > 0 { st.words.push(st.current) } else { st.words })
        }),
{
    lemma_words_upto_run(s, s.len() as int);
    assert(s.take(s.len() as int) =~= s);
}

/// A word without spaces, tabs or quotes is one argument.
pub proof fn lemma_shell_words_single(w: Seq<char>)
    requires
        w.len() > 0,
        !w.contains(' '),
        !w.contains('\t'),
        !w.contains('"'),
    ensures
        shell_words_spec(w) == seq![w],
{
    lemma_words_spec_run(w);
    lemma_words_run_plain(words_start(), w);
    assert(Seq::<char>::empty() + w =~= w);
    assert(Seq::<Seq<char>>::empty().push(w) =~= seq![w]);
}

/// Inside quotes, every character but a quote joins the current word.
proof fn lemma_words_run_quoted(st: WordsState, t: Seq<char>)
    requires
        st.in_quote,
        !t.contains('"'),
    ensures
        words_run(st, t) == (WordsState { current: st.current + t, ..st }),
    decreases t.len(),
{
    if t.len() == 0 {
        assert(st.current + t =~= st.current);
    } else {
        let d = t.drop_last();
        assert(!d.contains('"')) by {
            if d.contains('"') {
                let j = choose|j: int| 0 <= j < d.len() && d[j] == '"';
                assert(t[j] == d[j]);
            }
        }
        assert(t.contains(t.last()));
        lemma_words_run_quoted(st, d);
        assert((st.current + d).push(t.last()) =~= st.current + t);
    }
}

/// Text in double quotes is one argument, spaces and tabs included, without the quotes.
pub proof fn lemma_shell_words_quoted(w: Seq<char>)
    requires
        w.len() > 0,
        !w.contains('"'),
    ensures
        shell_words_spec(seq!['"'] + w + seq!['"']) == seq![w],
{
    let s0 = words_start();
    let q = seq!['"'];
    lemma_words_run_concat(s0, q + w, q);
    lemma_words_run_concat(s0, q, w);
    assert(q.drop_last() =~= Seq::<char>::empty());
    assert(q.last() == '"');
    assert(words_run(s0, Seq::<char>::empty()) == s0);
    let s1 = words_run(s0, q);
    assert(s1 == (WordsState { in_quote: true, ..s0 }));
    lemma_words_run_quoted(s1, w);
    let s2 = words_run(s1, w);
    assert(words_run(s2, Seq::<char>::empty()) == s2);
    assert(s2.current =~= w);
    lemma_words_spec_run(q + w + q);
    assert(Seq::<Seq<char>>::empty().push(w) =~= seq![w]);
}

/// A space outside quotes separates arguments: the arguments of two texts joined by a
/// space, the first without quotes, are the arguments of the first followed by those
/// of the second.
pub proof fn lemma_shell_words_split(a: Seq<char>, b: Seq<char>)
    requires
        !a.contains('"'),
    ensures
        shell_words_spec(a + seq![' '] + b) == shell_words_spec(a) + shell_words_spec(b),
{
    let s0 = words_start();
    let sa = words_run(s0, a);
    lemma_words_run_unquoted(s0, a);
    lemma_words_run_concat(s0, a + seq![' '], b);
    lemma_words_run_concat(s0, a, seq![' ']);
    let sp = seq![' '];
    assert(sp.drop_last() =~= Seq::<char>::empty());
    assert(sp.last() == ' ');
    let s1 = words_run(s0, a + sp);
    assert(words_run(sa, Seq::<char>::empty()) == sa);
    assert(words_run(sa, sp) == words_step(sa, ' '));
    let wa = shell_words_spec(a);
    lemma_words_spec_run(a);
    if sa.current.len() == 0 {
        assert(sa.current =~= Seq::<char>::empty());
    }
    assert(s1 == (WordsState { words: wa, current: Seq::<char>::empty(), in_quote: false }));
    lemma_words_run_prefix(s1, b);
    assert((WordsState { words: Seq::<Seq<char>>::empty(), ..s1 }) == s0);
    let sb = words_run(s0, b);
    lemma_words_spec_run(b);
    lemma_words_spec_run(a + sp + b);
    assert((wa + sb.words).push(sb.current) =~= wa + sb.words.push(sb.current));
}

/// The characters of each string.
pub open spec fn strings_view(v: Seq<String>) -> Seq<Seq<char>> {
    v.map_values(|x: String| x@)
}

/// Split a Windows command-line argument string into Vec<String>.
/// Simple split on whitespace; handles double-quoted segments.
pub fn shell_words_windows(s: &str) -> (r: Vec<String>)
    ensures
        strings_view(r@) == shell_words_spec(s@),
{
    let chars = str_to_chars(s);
    let mut args: Vec<String> = Vec::new();
    let mut current: Vec<char> = Vec::new();
    let mut in_quote = false;
    let mut i: usize = 0;
    while i < chars.len()
        invariant
            chars@ == s@,
            i <= chars@.len(),
            strings_view(args@) == words_upto(s@, i as int).words,
            current@ == words_upto(s@, i as int).current,
            in_quote == words_upto(s@, i as int).in_quote,
        decreases chars@.len() - i,
    {
        let ch = chars[i];
        if ch == '"' {
            in_quote = !in_quote;
        } else if (ch == ' ' || ch == '\t') && !in_quote {
            if current.len() > 0 {
                let word = string_from_chars(current.as_slice());
                args.push(word);
                current = Vec::new();
                assert(strings_view(args@) =~= words_upto(s@, i + 1).words);
            }
        } else {
            current.push(ch);
        }
        i = i + 1;
    }
    if current.len() > 0 {
        let word = string_from_chars(current.as_slice());
        args.push(word);
        assert(strings_view(args@) =~= shell_words_spec(s@));
    }
    args
}

/// ASCII letters to lower case; other characters unchanged.
pub open spec fn ascii_lower(c: char) -> char {
    if 'A' <= c && c <= 'Z' {
        ((c as u32) + 32) as char
    } else {
        c
    }
}

/// A character sequence with ASCII letters in lower case.
pub open spec fn lower_seq(s: Seq<char>) -> Seq<char> {
    s.map_values(|c: char| ascii_lower(c))
}

/// A command that names PowerShell (`powershell`, `pwsh`, with or without `.exe`),
/// alone or followed by a space and arguments, in any letter case.
pub open spec fn is_powershell(t: Seq<char>) -> bool {
    let l = lower_seq(t);
    ||| l == "powershell.exe"@
    ||| l == "powershell"@
    ||| l == "pwsh.exe"@
    ||| l == "pwsh"@
    ||| "powershell.exe "@.is_prefix_of(l)
    ||| "powershell "@.is_prefix_of(l)
    ||| "pwsh.exe "@.is_prefix_of(l)
    ||| "pwsh "@.is_prefix_of(l)
}

/// The position of the first space, or the length when there is none.
pub open spec fn first_space(t: Seq<char>) -> int
    decreases t.len(),
{
    if t.len() == 0 {
        0
    } else if t[0] == ' ' {
        0
    } else {
        1 + first_space(t.drop_first())
    }
}

/// The program and arguments a session command runs as on Windows: PowerShell is
/// started directly with the rest of the trimmed command split into words; any
/// other command runs under `cmd.exe /c`.
pub open spec fn windows_command_spec(cmd: Seq<char>) -> (Seq<char>, Seq<Seq<char>>) {
    let t = trim_ws(cmd);
    if is_powershell(t) {
        let k = first_space(t);
        (
            t.take(k),
            if k < t.len() {
                shell_words_spec(t.skip(k + 1))
            } else {
                Seq::<Seq<char>>::empty()
            },
        )
    } else {
        ("cmd.exe"@, seq!["/c"@, cmd])
    }
}

/// A command that names PowerShell (`powershell`, `powershell.exe`, `pwsh` or
/// `pwsh.exe` in any ASCII letter case, alone or followed by a space) runs that
/// program directly: the program is the trimmed command up to its first space, and
/// the arguments are the Windows words of what follows that space (none when there is
/// no space). Any other command runs as `cmd.exe /c` with the command as given.
pub proof fn lemma_windows_command_shape(cmd: Seq<char>)
    ensures
        ({
            let t = trim_ws(cmd);
            let l = lower_seq(t);
            let names_powershell = l == "powershell.exe"@ || l == "powershell"@ || l == "pwsh.exe"@ || l == "pwsh"@
                || "powershell.exe "@.is_prefix_of(l) || "powershell "@.is_prefix_of(l) || "pwsh.exe "@.is_prefix_of(l)
                || "pwsh "@.is_prefix_of(l);
            let r = windows_command_spec(cmd);
            let p = r.0;
            &&& names_powershell ==> {
                &&& p.len() <= t.len()
                &&& t.take(p.len() as int) == p
                &&& !p.contains(' ')
                &&& p.len() < t.len() ==> t[p.len() as int] == ' ' && r.1 == shell_words_spec(t.skip((p.len() + 1) as int))
                &&& p.len() == t.len() ==> r.1.len() == 0
            }
            &&& !names_powershell ==> r == ("cmd.exe"@, seq!["/c"@, cmd])
        }),
{
    let t = trim_ws(cmd);
    if is_powershell(t) {
        lemma_first_space(t);
        let k = first_space(t);
        assert(t.take(k).len() == k);
        assert(!t.take(k).contains(' ')) by {
            if t.take(k).contains(' ') {
                let j = choose|j: int| 0 <= j < t.take(k).len() && t.take(k)[j] == ' ';
                assert(t[j] == ' ');
            }
        }
    }
}

/// The first space of a sequence: no space before it, and a space at it unless it is
/// the end.
proof fn lemma_first_space(t: Seq<char>)
    ensures
        0 <= first_space(t) <= t.len(),
        forall|j: int| 0 <= j < first_space(t) ==> t[j] != ' ',
        first_space(t) < t.len() ==> t[first_space(t)] == ' ',
    decreases t.len(),
{
    if t.len() > 0 && t[0] != ' ' {
        lemma_first_space(t.drop_first());
        assert forall|j: int| 0 <= j < first_space(t) implies t[j] != ' ' by {
            if j > 0 {
                assert(t[j] == t.drop_first()[j - 1]);
            }
        }
    }
}

/// Whether the characters are exactly those of a literal.
fn chars_eq_str(v: &Vec<char>, lit: &str) -> (b: bool)
    ensures
        b == (v@ == lit@),
{
    let l = str_to_chars(lit);
    if v.len() != l.len() {
        return false;
    }
    let mut i: usize = 0;
    while i < v.len()
        invariant
            l@ == lit@,
            v@.len() == l@.len(),
            i <= v@.len(),
            forall|j: int| 0 <= j < i ==> v@[j] == l@[j],
        decreases v@.len() - i,
    {
        if v[i] != l[i] {
            return false;
        }
        i = i + 1;
    }
    assert(v@ =~= l@);
    true
}

/// Whether the characters begin with those of a literal.
fn chars_start_with(v: &Vec<char>, lit: &str) -> (b: bool)
    ensures
        b == lit@.is_prefix_of(v@),
{
    let l = str_to_chars(lit);
    if v.len() < l.len() {
        return false;
    }
    let mut i: usize = 0;
    while i < l.len()
        invariant
            l@ == lit@,
            v@.len() >= l@.len(),
            i <= l@.len(),
            forall|j: int| 0 <= j < i ==> v@[j] == l@[j],
        decreases l@.len() - i,
    {
        if v[i] != l[i] {
            return false;
        }
        i = i + 1;
    }
    assert(l@ =~= v@.take(l@.len() as int));
    true
}

/// The characters `start..end` with ASCII letters in lower case.
fn lower_range(chars: &Vec<char>, start: usize, end: usize) -> (r: Vec<char>)
    requires
        start <= end <= chars@.len(),
    ensures
        r@ == lower_seq(chars@.subrange(start as int, end as int)),
{
    let mut r: Vec<char> = Vec::new();
    let mut i: usize = start;
    while i < end
        invariant
            start <= i <= end <= chars@.len(),
            r@ == lower_seq(chars@.subrange(start as int, i as int)),
        decreases end - i,
    {
        let c = chars[i];
        let lc = if 'A' <= c && c <= 'Z' {
            ((c as u32) + 32) as u8 as char
        } else {
            c
        };
        r.push(lc);
        assert(r@ =~= lower_seq(chars@.subrange(start as int, i + 1)));
        i = i + 1;
    }
    r
}

/// A string of the characters `start..end`.
fn string_of_range(chars: &Vec<char>, start: usize, end: usize) -> (s: String)
    requires
        start <= end <= chars@.len(),
    ensures
        s@ == chars@.subrange(start as int, end as int),
{
    let mut s = String::new();
    let mut i: usize = start;
    while i < end
        invariant
            start <= i <= end <= chars@.len(),
            s@ == chars@.subrange(start as int, i as int),
        decreases end - i,
    {
        string_push(&mut s, chars[i]);
        assert(s@ =~= chars@.subrange(start as int, i + 1));
        i = i + 1;
    }
    s
}

/// The program and arguments a session command runs as on Windows (see
/// [`windows_command_spec`]).
#[verifier::spinoff_prover]
pub fn windows_command(cmd: &str) -> (r: (String, Vec<String>))
    ensures
        (r.0@, strings_view(r.1@)) == windows_command_spec(cmd@),
{
    let chars = str_to_chars(cmd);
    let (start, end) = trim_bounds(&chars);
    let ghost t = chars@.subrange(start as int, end as int);
    let lower = lower_range(&chars, start, end);
    let ps = chars_eq_str(&lower, "powershell.exe") || chars_eq_str(&lower, "powershell") || chars_eq_str(
        &lower,
        "pwsh.exe",
    ) || chars_eq_str(&lower, "pwsh") || chars_start_with(&lower, "powershell.exe ") || chars_start_with(
        &lower,
        "powershell ",
    ) || chars_start_with(&lower, "pwsh.exe ") || chars_start_with(&lower, "pwsh ");
    if ps {
        let mut k: usize = start;
        assert(t.skip(0) =~= t);
        while k < end && chars[k] != ' '
            invariant
                start <= k <= end <= chars@.len(),
                t == chars@.subrange(start as int, end as int),
                first_space(t) == (k - start) + first_space(t.skip(k - start)),
            decreases end - k,
        {
            proof {
                let u = t.skip(k - start);
                assert(u[0] == chars@[k as int]);
                assert(u.drop_first() =~= t.skip(k + 1 - start));
            }
            k = k + 1;
        }
        proof {
            let u = t.skip(k - start);
            if k < end {
                assert(u[0] == chars@[k as int]);
            } else {
                assert(u.len() == 0);
            }
            assert(first_space(t) == k - start);
            assert(t.take(k - start) =~= chars@.subrange(start as int, k as int));
        }
        let program = string_of_range(&chars, start, k);
        let mut args: Vec<String> = Vec::new();
        if k < end {
            let rest = string_of_range(&chars, k + 1, end);
            assert(rest@ =~= t.skip(k + 1 - start));
            args = shell_words_windows(rest.as_str());
        } else {
            assert(strings_view(args@) =~= Seq::<Seq<char>>::empty());
        }
        (program, args)
    } else {
        let program = String::from_str("cmd.exe");
        let mut args: Vec<String> = Vec::new();
        args.push(String::from_str("/c"));
        args.push(String::from_str(cmd));
        assert(strings_view(args@) =~= seq!["/c"@, cmd@]);
        (program, args)
    }
}

/// The arguments a session command runs with under the shell on Unix: `-c` and the
/// command.
pub fn unix_command_args(cmd: String) -> (r: Vec<String>)
    ensures
        strings_view(r@) == seq!["-c"@, cmd@],
{
    let mut args: Vec<String> = Vec::new();
    args.push(String::from_str("-c"));
    let ghost c = cmd@;
    args.push(cmd);
    assert(strings_view(args@) =~= seq!["-c"@, c]);
    args
}

/// Sessions by name, in the order they were added, with the counter that numbers
/// sessions created without a name.
pub struct SessionTable<S> {
    entries: Vec<(String, S)>,
    next_id: u32,
}

/// Different numbers have different decimal representations.
proof fn lemma_decimal_injective(a: nat, b: nat)
    requires
        decimal(a) == decimal(b),
    ensures
        a == b,
{
    crate::platform::lemma_decimal_digits(a);
    crate::platform::lemma_decimal_digits(b);
}

impl<S> SessionTable<S> {
    /// The session names, in order.
    pub closed spec fn names(&self) -> Seq<Seq<char>> {
        self.entries@.map_values(|e: (String, S)| e.0@)
    }

    /// The sessions, in the order of their names.
    pub closed spec fn values(&self) -> Seq<S> {
        self.entries@.map_values(|e: (String, S)| e.1)
    }

    /// The number the next unnamed session is tried with.
    pub closed spec fn next_id(&self) -> u32 {
        self.next_id
    }

    /// No name occurs twice.
    pub closed spec fn wf(&self) -> bool {
        self.names().no_duplicates()
    }

    /// An empty table whose first unnamed session is tried as `0`.
    pub fn new() -> (t: Self)
        ensures
            t.wf(),
            t.names() == Seq::<Seq<char>>::empty(),
            t.values() == Seq::<S>::empty(),
            t.next_id() == 0,
    {
        let t = SessionTable { entries: Vec::new(), next_id: 0 };
        assert(t.names() =~= Seq::<Seq<char>>::empty());
        assert(t.values() =~= Seq::<S>::empty());
        t
    }

    /// Number of sessions.
    pub fn count(&self) -> (n: usize)
        ensures
            n == self.names().len(),
    {
        self.entries.len()
    }

    /// The number the next unnamed session is tried with.
    pub fn next_id_value(&self) -> (n: u32)
        ensures
            n == self.next_id(),
    {
        self.next_id
    }

    /// Where a name stands in the table.
    pub fn position(&self, name: &str) -> (r: Option<usize>)
        ensures
            match r {
                Some(i) => i < self.names().len() && self.names()[i as int] == name@,
                None => !self.names().contains(name@),
            },
    {
        let key = String::from_str(name);
        let mut i: usize = 0;
        while i < self.entries.len()
            invariant
                key@ == name@,
                i <= self.entries@.len(),
                forall|j: int| 0 <= j < i ==> self.names()[j] != name@,
            decreases self.entries@.len() - i,
        {
            if self.entries[i].0 == key {
                return Some(i);
            }
            i = i + 1;
        }
        proof {
            if self.names().contains(name@) {
                let j = choose|j: int| 0 <= j < self.names().len() && self.names()[j] == name@;
                assert(self.names()[j] != name@);
            }
        }
        None
    }

    /// Whether a session of that name exists.
    pub fn contains(&self, name: &str) -> (b: bool)
        ensures
            b == self.names().contains(name@),
    {
        self.position(name).is_some()
    }

    /// The session of that name, if any.
    pub fn get(&self, name: &str) -> (r: Option<&S>)
        ensures
            match r {
                Some(v) => exists|i: int| 0 <= i < self.names().len() && self.names()[i] == name@ && self.values()[i] == *v,
                None => !self.names().contains(name@),
            },
    {
        match self.position(name) {
            Some(i) => {
                assert(self.values()[i as int] == self.entries@[i as int].1);
                Some(&self.entries[i].1)
            },
            None => None,
        }
    }

    /// The name and session at a position.
    pub fn get_at(&self, i: usize) -> (r: (&String, &S))
        requires
            i < self.names().len(),
        ensures
            r.0@ == self.names()[i as int],
            *r.1 == self.values()[i as int],
    {
        let e = &self.entries[i];
        (&e.0, &e.1)
    }

    /// The session at a position, to be changed in place.
    pub fn value_mut(&mut self, i: usize) -> (r: &mut S)
        requires
            i < old(self).names().len(),
        ensures
            *r == old(self).values()[i as int],
            final(self).names() == old(self).names(),
            final(self).values() == old(self).values().update(i as int, *final(r)),
            final(self).next_id() == old(self).next_id(),
    {
        &mut self.entries[i].1
    }

    /// Adds a session under a name not in use.
    pub fn insert(&mut self, name: String, value: S)
        requires
            old(self).wf(),
            !old(self).names().contains(name@),
        ensures
            final(self).wf(),
            final(self).names() == old(self).names().push(name@),
            final(self).values() == old(self).values().push(value),
            final(self).next_id() == old(self).next_id(),
    {
        let ghost n = name@;
        let ghost v = value;
        self.entries.push((name, value));
        assert(self.names() =~= old(self).names().push(n));
        assert(self.values() =~= old(self).values().push(v));
    }

    /// Removes the session of that name and returns it, if it exists.
    pub fn remove(&mut self, name: &str) -> (r: Option<S>)
        requires
            old(self).wf(),
        ensures
            final(self).wf(),
            final(self).next_id() == old(self).next_id(),
            match r {
                Some(v) => exists|i: int|
                    0 <= i < old(self).names().len() && old(self).names()[i] == name@ && old(self).values()[i] == v
                        && final(self).names() == old(self).names().remove(i) && final(self).values()
                        == old(self).values().remove(i),
                None => !old(self).names().contains(name@) && final(self).names() == old(self).names()
                    && final(self).values() == old(self).values(),
            },
    {
        match self.position(name) {
            Some(i) => {
                let e = self.entries.remove(i);
                assert(self.names() =~= old(self).names().remove(i as int));
                assert(self.values() =~= old(self).values().remove(i as int));
                assert(e.1 == old(self).values()[i as int]);
                assert(self.names().no_duplicates()) by {
                    assert forall|a: int, b: int|
                        0 <= a < self.names().len() && 0 <= b < self.names().len() && a != b implies self.names()[a]
                        != self.names()[b] by {
                        let a2 = if a < i { a } else { a + 1 };
                        let b2 = if b < i { b } else { b + 1 };
                        assert(self.names()[a] == old(self).names()[a2]);
                        assert(self.names()[b] == old(self).names()[b2]);
                    }
                }
                Some(e.1)
            },
            None => None,
        }
    }

    /// The session names, in order.
    pub fn names_vec(&self) -> (v: Vec<String>)
        ensures
            strings_view(v@) == self.names(),
    {
        let mut v: Vec<String> = Vec::new();
        let mut i: usize = 0;
        while i < self.entries.len()
            invariant
                i <= self.entries@.len(),
                strings_view(v@) == self.names().take(i as int),
            decreases self.entries@.len() - i,
        {
            let nm = self.entries[i].0.clone();
            assert(nm@ == self.names()[i as int]);
            let ghost before = v@;
            v.push(nm);
            assert(strings_view(v@) =~= strings_view(before).push(self.names()[i as int]));
            assert(self.names().take(i + 1) =~= self.names().take(i as int).push(self.names()[i as int]));
            i = i + 1;
        }
        assert(self.names().take(self.entries@.len() as int) =~= self.names());
        v
    }

    /// The name a new session gets: the given one when it is not in use (an error
    /// when it is), otherwise the first number from the counter on that no session
    /// is named after; the counter moves past the number taken.
    #[verifier::spinoff_prover]
    pub fn allocate_name(&mut self, name: Option<String>) -> (r: Result<String, String>)
        requires
            old(self).wf(),
            name is None ==> old(self).next_id() + old(self).names().len() < u32::MAX,
        ensures
            final(self).wf(),
            final(self).names() == old(self).names(),
            final(self).values() == old(self).values(),
            match name {
                Some(n) => {
                    &&& final(self).next_id() == old(self).next_id()
                    &&& old(self).names().contains(n@) ==> (r matches Err(e) && e@ == already_exists_text(n@))
                    &&& !old(self).names().contains(n@) ==> (r matches Ok(g) && g@ == n@)
                },
                None => r matches Ok(g) && {
                    &&& final(self).next_id() > old(self).next_id()
                    &&& g@ == decimal((final(self).next_id() - 1) as nat)
                    &&& !old(self).names().contains(g@)
                    &&& forall|j: int|
                        old(self).next_id() <= j < final(self).next_id() - 1 ==> old(self).names().contains(
                            #[trigger] decimal(j as nat),
                        )
                },
            },
    {
        match name {
            Some(n) => {
                if self.contains(n.as_str()) {
                    Err(session_already_exists(n.as_str()))
                } else {
                    Ok(n)
                }
            },
            None => {
                let ghost start = self.next_id;
                let ghost names = self.names();
                let ghost mut tried: Set<Seq<char>> = Set::empty();
                proof {
                    names.lemma_cardinality_of_set();
                }
                loop
                    invariant
                        name is None,
                        self.wf(),
                        self.names() == names,
                        self.values() == old(self).values(),
                        names == old(self).names(),
                        start == old(self).next_id(),
                        start <= self.next_id,
                        start + names.len() < u32::MAX,
                        tried.finite(),
                        tried.len() == self.next_id - start,
                        tried.subset_of(names.to_set()),
                        names.to_set().len() <= names.len(),
                        forall|j: int| start <= j < self.next_id ==> #[trigger] tried.contains(decimal(j as nat)),
                        forall|x: Seq<char>| #[trigger] tried.contains(x) ==> exists|j: int|
                            start <= j < self.next_id && x == #[trigger] decimal(j as nat),
                    decreases start + names.len() - self.next_id,
                {
                    proof {
                        vstd::set_lib::lemma_len_subset(tried, names.to_set());
                    }
                    let mut candidate = String::new();
                    push_decimal(&mut candidate, self.next_id as u64);
                    assert(candidate@ =~= decimal(self.next_id as nat));
                    if !self.contains(candidate.as_str()) {
                        self.next_id = self.next_id + 1;
                        proof {
                            assert forall|j: int| start <= j < self.next_id - 1 implies names.contains(
                                #[trigger] decimal(j as nat),
                            ) by {
                                assert(tried.contains(decimal(j as nat)));
                            }
                        }
                        return Ok(candidate);
                    }
                    proof {
                        let c = decimal(self.next_id as nat);
                        assert(!tried.contains(c)) by {
                            if tried.contains(c) {
                                let j = choose|j: int| start <= j < self.next_id && c == #[trigger] decimal(j as nat);
                                lemma_decimal_injective(j as nat, self.next_id as nat);
                            }
                        }
                        assert(names.to_set().contains(c));
                        let old_tried = tried;
                        tried = tried.insert(c);
                        vstd::set_lib::lemma_len_subset(tried, names.to_set());
                        assert forall|x: Seq<char>| #[trigger] tried.contains(x) implies exists|j: int|
                            start <= j < self.next_id + 1 && x == #[trigger] decimal(j as nat) by {
                            if x == c {
                                let j = self.next_id as int;
                                assert(start <= j < self.next_id + 1 && x == decimal(j as nat));
                            } else {
                                assert(old_tried.contains(x));
                                let j = choose|j: int| start <= j < self.next_id && x == #[trigger] decimal(j as nat);
                                assert(start <= j < self.next_id + 1 && x == decimal(j as nat));
                            }
                        }
                    }
                    self.next_id = self.next_id + 1;
                }
            },
        }
    }
}
} // verus!
