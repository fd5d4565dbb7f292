//! Daemon bookkeeping that does not touch the system: where a session's files live,
//! what a PID file holds and how it is read back.
//!
//! Starting, probing and stopping a daemon are the program's own business.
use vstd::prelude::*;
use vstd::string::StringExecFns;
use crate::text::{
    decimal, digit_char, is_white_space, push_decimal, str_to_chars, string_push, string_push_str, trim_bounds,
    trim_ws, trim_start_ws, trim_end_ws,
};

verus! {

/// Daemon configuration
#[derive(Debug, Clone)]
pub struct DaemonConfig {
    /// Session name
    pub session_name: String,
    /// Working directory
    pub work_dir: Option<String>,
    /// Environment variables to pass
    pub env: Vec<(String, String)>,
    /// Initial window size (optional, for warm start)
    pub init_size: Option<(u16, u16)>,
}

impl Default for DaemonConfig {
    fn default() -> (c: Self)
        ensures
            c.session_name@ == "default"@,
            c.work_dir is None,
            c.env@.len() == 0,
            c.init_size is None,
    {
        DaemonConfig {
            session_name: String::from_str("default"),
            work_dir: None,
            env: Vec::new(),
            init_size: None,
        }
    }
}

/// Daemon handle for managing the background process
#[derive(Debug)]
pub struct DaemonHandle {
    /// Process ID
    pub pid: u32,
    /// Session name
    pub session_name: String,
}

/// The pmux directory under a home directory on POSIX systems: `HOME/.pmux`.
pub fn posix_pmux_dir(home: &str) -> (d: String)
    ensures
        d@ == home@ + "/.pmux"@,
{
    let mut d = String::from_str(home);
    string_push_str(&mut d, "/.pmux");
    d
}

/// The pmux directory under a home directory on Windows: `HOME\.pmux`.
pub fn windows_pmux_dir(home: &str) -> (d: String)
    ensures
        d@ == home@ + "\\.pmux"@,
{
    let mut d = String::from_str(home);
    string_push_str(&mut d, "\\.pmux");
    d
}

/// `dir`, a separator, the session name and an extension.
fn session_file(dir: &str, sep: char, session_name: &str, ext: &str) -> (p: String)
    ensures
        p@ == dir@ + seq![sep] + session_name@ + ext@,
{
    let mut p = String::from_str(dir);
    string_push(&mut p, sep);
    string_push_str(&mut p, session_name);
    string_push_str(&mut p, ext);
    assert(p@ =~= dir@ + seq![sep] + session_name@ + ext@);
    p
}

/// Get the socket file path for a session (Unix domain socket) in the pmux directory.
pub fn socket_file_path(dir: &str, session_name: &str) -> (p: String)
    ensures
        p@ == dir@ + seq!['/'] + session_name@ + ".sock"@,
{
    session_file(dir, '/', session_name, ".sock")
}

/// Get the lock file path for a session (PID file) in the pmux directory.
pub fn lock_file_path(dir: &str, session_name: &str) -> (p: String)
    ensures
        p@ == dir@ + seq!['/'] + session_name@ + ".pid"@,
{
    session_file(dir, '/', session_name, ".pid")
}

/// Get the port file path for a session in the pmux directory (Windows).
pub fn port_file_path(dir: &str, session_name: &str) -> (p: String)
    ensures
        p@ == dir@ + seq!['\\'] + session_name@ + ".port"@,
{
    session_file(dir, '\\', session_name, ".port")
}

/// Get the key file path for a session in the pmux directory (Windows).
pub fn key_file_path(dir: &str, session_name: &str) -> (p: String)
    ensures
        p@ == dir@ + seq!['\\'] + session_name@ + ".key"@,
{
    session_file(dir, '\\', session_name, ".key")
}

/// What a daemon writes to its PID file: the PID in decimal and a line feed.
pub fn pid_file_contents(pid: u32) -> (s: String)
    ensures
        s@ == decimal(pid as nat) + seq!['\n'],
{
    let mut s = String::new();
    push_decimal(&mut s, pid as u64);
    string_push(&mut s, '\n');
    assert(s@ =~= decimal(pid as nat) + seq!['\n']);
    s
}


/// A decimal digit.
pub open spec fn is_digit(c: char) -> bool {
    '0' <= c && c <= '9'
}

/// The number that decimal digits denote.
pub open spec fn digits_value(d: Seq<char>) -> nat
    decreases d.len(),
{
    if d.len() == 0 {
        0
    } else {
        digits_value(d.drop_last()) * 10 + ((d.last() as nat) - 48) as nat
    }
}

/// The digits of an unsigned number: without the optional leading `+`.
pub open spec fn unsigned_digits(t: Seq<char>) -> Seq<char> {
    if t.len() > 0 && t[0] == '+' {
        t.drop_first()
    } else {
        t
    }
}

/// Every character is a decimal digit.
pub open spec fn all_digits(d: Seq<char>) -> bool {
    forall|i: int| 0 <= i < d.len() ==> is_digit(#[trigger] d[i])
}

/// What `str::parse::<u32>` gives: an optional `+`, then one or more decimal digits
/// whose value fits in 32 bits.
pub open spec fn parse_u32_spec(t: Seq<char>) -> Option<u32> {
    let d = unsigned_digits(t);
    if d.len() > 0 && all_digits(d) && digits_value(d) <= u32::MAX {
        Some(digits_value(d) as u32)
    } else {
        None
    }
}

/// The PID a PID file holds: surrounding whitespace
/// is trimmed and the rest parsed as a 32-bit unsigned decimal.
pub open spec fn pid_of_file(contents: Seq<char>) -> Option<u32> {
    parse_u32_spec(trim_ws(contents))
}

/// A longer run of digits is worth at least as much as its prefix.
proof fn lemma_digits_value_prefix(d: Seq<char>, k: int)
    requires
        0 <= k <= d.len(),
        forall|i: int| 0 <= i < d.len() ==> is_digit(#[trigger] d[i]),
    ensures
        digits_value(d.take(k)) <= digits_value(d),
    decreases d.len(),
{
    if k < d.len() {
        assert(d.drop_last().take(k) =~= d.take(k));
        lemma_digits_value_prefix(d.drop_last(), k);
    } else {
        assert(d.take(k) =~= d);
    }
}

/// Parses `chars[start..end]` as `str::parse::<u32>` does (see [`parse_u32_spec`]).
fn parse_u32_range(chars: &Vec<char>, start: usize, end: usize) -> (r: Option<u32>)
    requires
        start <= end <= chars@.len(),
    ensures
        r == parse_u32_spec(chars@.subrange(start as int, end as int)),
{
    let ghost w = chars@.subrange(start as int, end as int);
    let ghost d = unsigned_digits(w);
    let mut p: usize = start;
    if p < end && chars[p] == '+' {
        p = p + 1;
    }
    proof {
        if start < end {
            assert(w[0] == chars@[start as int]);
        }
        assert(d =~= chars@.subrange(p as int, end as int));
    }
    if p == end {
        return None;
    }
    let mut value: u64 = 0;
    let mut i: usize = p;
    while i < end
        invariant
            p <= i <= end <= chars@.len(),
            d == chars@.subrange(p as int, end as int),
            d == unsigned_digits(chars@.subrange(start as int, end as int)),
            d.len() > 0,
            forall|j: int| 0 <= j < i - p ==> is_digit(#[trigger] d[j]),
            value == digits_value(d.take(i - p)),
            value <= u32::MAX,
        decreases end - i,
    {
        let c = chars[i];
        if !('0' <= c && c <= '9') {
            assert(!is_digit(d[i - p]));
            return None;
        }
        proof {
            assert(d.take(i + 1 - p).drop_last() =~= d.take(i - p));
            assert(d.take(i + 1 - p).last() == c);
        }
        value = value * 10 + (c as u64 - 48);
        if value > 0xFFFF_FFFF {
            proof {
                if all_digits(d) {
                    lemma_digits_value_prefix(d, i + 1 - p);
                }
            }
            return None;
        }
        i = i + 1;
    }
    assert(d.take(d.len() as int) =~= d);
    Some(value as u32)
}

/// Reads the PID in a PID file's contents (see [`pid_of_file`]).
pub fn parse_pid(contents: &str) -> (r: Option<u32>)
    ensures
        r == pid_of_file(contents@),
{
    let chars = str_to_chars(contents);
    let (start, end) = trim_bounds(&chars);
    parse_u32_range(&chars, start, end)
}

/// The digits of a decimal representation.
pub proof fn lemma_decimal_digits(n: nat)
    ensures
        decimal(n).len() > 0,
        forall|i: int| 0 <= i < decimal(n).len() ==> is_digit(#[trigger] decimal(n)[i]),
        digits_value(decimal(n)) == n,
    decreases n,
{
    assert((digit_char(n % 10) as nat) == n % 10 + 48);
    assert(n == (n / 10) * 10 + n % 10) by (nonlinear_arith);
    if n < 10 {
        let d = decimal(n);
        assert(d.drop_last() =~= Seq::<char>::empty());
        assert(d.last() == digit_char(n));
        assert(digits_value(d.drop_last()) == 0);
        assert(digits_value(d) == digits_value(d.drop_last()) * 10 + ((d.last() as nat) - 48) as nat);
    } else {
        lemma_decimal_digits(n / 10);
        let d = decimal(n);
        assert(d.drop_last() =~= decimal(n / 10));
        assert(d.last() == digit_char(n % 10));
        assert(digits_value(d) == digits_value(d.drop_last()) * 10 + ((d.last() as nat) - 48) as nat);
        assert forall|i: int| 0 <= i < d.len() implies is_digit(#[trigger] d[i]) by {
            if i < d.len() - 1 {
                assert(d[i] == decimal(n / 10)[i]);
            }
        }
    }
}

/// A PID file is read back as the PID written to it.
pub proof fn lemma_pid_file_roundtrip(pid: u32)
    ensures
        pid_of_file(decimal(pid as nat) + seq!['\n']) == Some(pid),
{
    let d = decimal(pid as nat);
    let f = d + seq!['\n'];
    lemma_decimal_digits(pid as nat);
    assert(!is_white_space(d[0])) by {
        assert(is_digit(d[0]));
    }
    assert(f[0] == d[0]);
    assert(trim_start_ws(f) == f);
    assert(f.drop_last() =~= d);
    assert(is_white_space(f.last()));
    assert(!is_white_space(d.last())) by {
        assert(is_digit(d[d.len() - 1]));
    }
    assert(trim_end_ws(d) == d);
    assert(trim_end_ws(f) == d);
    assert(d[0] != '+') by {
        assert(is_digit(d[0]));
    }
}

/// The session a daemon's PID file belongs to: a file named `<session>.pid` with a
/// non-empty session part.
pub open spec fn pid_stem_spec(name: Seq<char>) -> Option<Seq<char>> {
    if name.len() > 4 && name.skip(name.len() - 4) == ".pid"@ {
        Some(name.take(name.len() - 4))
    } else {
        None
    }
}

/// The session of a PID file name (see [`pid_stem_spec`]); other files belong to
/// no session.
pub fn pid_file_stem(file_name: &str) -> (r: Option<String>)
    ensures
        opt_chars(r) == pid_stem_spec(file_name@),
{
    let chars = str_to_chars(file_name);
    let n = chars.len();
    proof {
        reveal_strlit(".pid");
    }
    if n > 4 && chars[n - 4] == '.' && chars[n - 3] == 'p' && chars[n - 2] == 'i' && chars[n - 1] == 'd' {
        assert(file_name@.skip(n - 4) =~= ".pid"@);
        let stem = crate::text::string_from_chars(vstd::slice::slice_subrange(chars.as_slice(), 0, n - 4));
        assert(stem@ =~= file_name@.take(n - 4));
        Some(stem)
    } else {
        proof {
            if n > 4 && file_name@.skip(n - 4) == ".pid"@ {
                assert(file_name@.skip(n - 4)[0] == file_name@[n - 4]);
                assert(file_name@.skip(n - 4)[1] == file_name@[n - 3]);
                assert(file_name@.skip(n - 4)[2] == file_name@[n - 2]);
                assert(file_name@.skip(n - 4)[3] == file_name@[n - 1]);
            }
        }
        None
    }
}

/// The characters of an optional string.
pub open spec fn opt_chars(o: Option<String>) -> Option<Seq<char>> {
    match o {
        Some(s) => Some(s@),
        None => None,
    }
}

/// Names in order of their characters' code points (the order of their UTF-8 bytes),
/// a name before every longer name that it starts.
pub open spec fn name_le(a: Seq<char>, b: Seq<char>) -> bool
    decreases a.len(),
{
    if a.len() == 0 {
        true
    } else if b.len() == 0 {
        false
    } else if a[0] != b[0] {
        a[0] < b[0]
    } else {
        name_le(a.drop_first(), b.drop_first())
    }
}

proof fn lemma_name_le_total(a: Seq<char>, b: Seq<char>)
    ensures
        name_le(a, b) || name_le(b, a),
    decreases a.len(),
{
    if a.len() > 0 && b.len() > 0 {
        if a[0] == b[0] {
            lemma_name_le_total(a.drop_first(), b.drop_first());
        }
    }
}

proof fn lemma_name_le_trans(a: Seq<char>, b: Seq<char>, c: Seq<char>)
    requires
        name_le(a, b),
        name_le(b, c),
    ensures
        name_le(a, c),
    decreases a.len(),
{
    if a.len() > 0 && b.len() > 0 && c.len() > 0 && a[0] == b[0] && b[0] == c[0] {
        lemma_name_le_trans(a.drop_first(), b.drop_first(), c.drop_first());
    }
}

/// Whether `a` comes no later than `b` (see [`name_le`]).
fn str_le(a: &str, b: &str) -> (r: bool)
    ensures
        r == name_le(a@, b@),
{
    let x = str_to_chars(a);
    let y = str_to_chars(b);
    let mut i: usize = 0;
    assert(a@.skip(0) =~= a@);
    assert(b@.skip(0) =~= b@);
    while i < x.len() && i < y.len() && x[i] == y[i]
        invariant
            x@ == a@,
            y@ == b@,
            i <= x@.len(),
            i <= y@.len(),
            name_le(a@, b@) == name_le(a@.skip(i as int), b@.skip(i as int)),
        decreases x@.len() - i,
    {
        proof {
            let p = a@.skip(i as int);
            let q = b@.skip(i as int);
            assert(p[0] == q[0]);
            assert(p.drop_first() =~= a@.skip(i + 1));
            assert(q.drop_first() =~= b@.skip(i + 1));
        }
        i = i + 1;
    }
    proof {
        let p = a@.skip(i as int);
        let q = b@.skip(i as int);
        if i < x@.len() && i < y@.len() {
            assert(p[0] == a@[i as int] && q[0] == b@[i as int]);
        }
    }
    if i == x.len() {
        true
    } else if i == y.len() {
        false
    } else {
        x[i] < y[i]
    }
}

/// Names in order (see [`name_le`]).
pub open spec fn names_sorted(s: Seq<Seq<char>>) -> bool {
    forall|i: int, j: int| 0 <= i < j < s.len() ==> name_le(s[i], s[j])
}

/// The names whose daemon runs, in the order given.
pub open spec fn running_names(daemons: Seq<(Seq<char>, bool)>) -> Seq<Seq<char>>
    decreases daemons.len(),
{
    if daemons.len() == 0 {
        Seq::<Seq<char>>::empty()
    } else if daemons.last().1 {
        running_names(daemons.drop_last()).push(daemons.last().0)
    } else {
        running_names(daemons.drop_last())
    }
}

/// The names whose daemon is gone, in the order given.
pub open spec fn stale_names(daemons: Seq<(Seq<char>, bool)>) -> Seq<Seq<char>>
    decreases daemons.len(),
{
    if daemons.len() == 0 {
        Seq::<Seq<char>>::empty()
    } else if !daemons.last().1 {
        stale_names(daemons.drop_last()).push(daemons.last().0)
    } else {
        stale_names(daemons.drop_last())
    }
}

/// The characters of each name with whether its daemon runs.
pub open spec fn daemons_view(d: Seq<(String, bool)>) -> Seq<(Seq<char>, bool)> {
    d.map_values(|e: (String, bool)| (e.0@, e.1))
}

/// The characters of each name.
pub open spec fn names_view(v: Seq<String>) -> Seq<Seq<char>> {
    v.map_values(|s: String| s@)
}

/// Sorts out the sessions that have PID files, each with whether its daemon runs:
/// the running ones are listed in order of their names, and the files of the
/// others are stale, in the order given.
pub fn daemon_listing(daemons: &Vec<(String, bool)>) -> (r: (Vec<String>, Vec<String>))
    ensures
        names_sorted(names_view(r.0@)),
        names_view(r.0@).to_multiset() == running_names(daemons_view(daemons@)).to_multiset(),
        names_view(r.1@) == stale_names(daemons_view(daemons@)),
{
    let ghost d = daemons_view(daemons@);
    let mut running: Vec<String> = Vec::new();
    let mut stale: Vec<String> = Vec::new();
    let mut i: usize = 0;
    proof {
        assert(d.take(0) =~= Seq::<(Seq<char>, bool)>::empty());
        assert(names_view(running@) =~= Seq::<Seq<char>>::empty());
        assert(names_view(stale@) =~= Seq::<Seq<char>>::empty());
        assert(running_names(d.take(0)) =~= Seq::<Seq<char>>::empty());
    }
    while i < daemons.len()
        invariant
            d == daemons_view(daemons@),
            i <= daemons@.len(),
            names_sorted(names_view(running@)),
            names_view(running@).to_multiset() == running_names(d.take(i as int)).to_multiset(),
            names_view(stale@) == stale_names(d.take(i as int)),
        decreases daemons@.len() - i,
    {
        let ghost di = d.take(i + 1);
        proof {
            assert(di.drop_last() =~= d.take(i as int));
            assert(di.last() == d[i as int]);
            assert(d[i as int] == (daemons@[i as int].0@, daemons@[i as int].1));
        }
        let name = &daemons[i].0;
        if daemons[i].1 {
            let ghost before = names_view(running@);
            let mut j: usize = running.len();
            while j > 0 && !str_le(running[j - 1].as_str(), name.as_str())
                invariant
                    j <= running@.len(),
                    before == names_view(running@),
                    forall|k: int| j <= k < running@.len() ==> !name_le(#[trigger] before[k], name@),
                decreases j,
            {
                j = j - 1;
            }
            proof {
                assert forall|k: int| j <= k < before.len() implies name_le(name@, #[trigger] before[k]) by {
                    lemma_name_le_total(before[k], name@);
                }
                assert forall|k: int| 0 <= k < j implies name_le(#[trigger] before[k], name@) by {
                    if k < j - 1 {
                        lemma_name_le_trans(before[k], before[j - 1], name@);
                    }
                }
            }
            running.insert(j, name.clone());
            proof {
                let after = names_view(running@);
                assert(after =~= before.insert(j as int, name@));
                vstd::seq_lib::to_multiset_insert(before, j as int, name@);
                vstd::seq_lib::to_multiset_build(running_names(d.take(i as int)), name@);
                assert forall|a: int, b: int| 0 <= a < b < after.len() implies name_le(after[a], after[b]) by {
                    if b < j {
                    } else if a < j && b == j {
                    } else if a < j {
                        lemma_name_le_trans(before[a], name@, before[b - 1]);
                    } else if a == j {
                    } else {
                    }
                }
            }
        } else {
            stale.push(name.clone());
            proof {
                assert(names_view(stale@) =~= stale_names(di));
            }
        }
        i = i + 1;
    }
    assert(d.take(daemons@.len() as int) =~= d);
    (running, stale)
}
} // verus!
