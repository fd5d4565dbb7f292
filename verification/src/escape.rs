//! C-style escape sequence processing.
use vstd::prelude::*;
use vstd::utf8::*;
use crate::text::{push_char_utf8, push_scalar_utf8, str_to_chars};

verus! {

broadcast use vstd::utf8::char_is_scalar;

/// True for the ASCII hexadecimal digits `0-9`, `a-f` and `A-F`.
pub open spec fn is_hex_char(c: char) -> bool {
    ('0' <= c && c <= '9') || ('a' <= c && c <= 'f') || ('A' <= c && c <= 'F')
}

/// The value of one hexadecimal digit.
pub open spec fn hex_digit_value(c: char) -> nat {
    if '0' <= c && c <= '9' {
        (c as u32 - '0' as u32) as nat
    } else if 'a' <= c && c <= 'f' {
        (c as u32 - 'a' as u32 + 10) as nat
    } else {
        (c as u32 - 'A' as u32 + 10) as nat
    }
}

/// The number a run of hexadecimal digits denotes (most significant first).
pub open spec fn hex_value(digits: Seq<char>) -> nat
    decreases digits.len(),
{
    if digits.len() == 0 {
        0
    } else {
        hex_value(digits.drop_last()) * 16 + hex_digit_value(digits.last())
    }
}

/// How many of the first `max` characters of `s` are hexadecimal digits, counted
/// from the front up to the first one that is not.
pub open spec fn hex_run(s: Seq<char>, max: nat) -> nat
    decreases max,
{
    if max == 0 || s.len() == 0 || !is_hex_char(s[0]) {
        0
    } else {
        1 + hex_run(s.drop_first(), (max - 1) as nat)
    }
}

/// The bytes that `\u` followed by `rest` contributes, with the number of
/// characters of `rest` it consumes.
pub open spec fn unicode_escape(rest: Seq<char>) -> (Seq<u8>, nat) {
    let k = hex_run(rest, 4);
    let v = hex_value(rest.take(k as int));
    if k == 0 {
        (seq![0x5Cu8, 0x75u8], 0)
    } else if is_scalar(v as u32) {
        (encode_scalar(v as u32), k)
    } else {
        (Seq::<u8>::empty(), k)
    }
}

/// The bytes that `\x` followed by `rest` contributes, with the number of
/// characters of `rest` it consumes.
pub open spec fn byte_escape(rest: Seq<char>) -> (Seq<u8>, nat) {
    let k = hex_run(rest, 2);
    if k == 0 {
        (seq![0x5Cu8, 0x78u8], 0)
    } else {
        (seq![hex_value(rest.take(k as int)) as u8], k)
    }
}

/// The byte that a one-letter escape `\c` stands for, if `c` names one.
pub open spec fn simple_escape(c: char) -> Option<u8> {
    if c == 'n' {
        Some(0x0Au8)
    } else if c == 'r' {
        Some(0x0Du8)
    } else if c == 't' {
        Some(0x09u8)
    } else if c == 'b' {
        Some(0x08u8)
    } else if c == 'f' {
        Some(0x0Cu8)
    } else if c == '\\' {
        Some(0x5Cu8)
    } else if c == '0' {
        Some(0x00u8)
    } else if c == 'a' {
        Some(0x07u8)
    } else if c == 'e' || c == 'E' {
        Some(0x1Bu8)
    } else {
        None
    }
}

/// The bytes denoted by a string with C-style escapes.
///
/// Unescaped characters stand for their UTF-8 encoding; `\n \r \t \b \f \\ \0 \a \e \E`
/// stand for one control byte; `\u` takes up to four hex digits and stands for the
/// UTF-8 encoding of that scalar (nothing when it is a surrogate); `\x` takes up to
/// two hex digits and stands for that byte; `\u` and `\x` without a digit, and a
/// backslash before any other character, stand for themselves; a trailing
/// backslash stands for itself.
pub open spec fn unescape_spec(s: Seq<char>) -> Seq<u8>
    decreases s.len(),
{
    if s.len() == 0 {
        Seq::<u8>::empty()
    } else if s[0] != '\\' {
        encode_utf8(seq![s[0]]) + unescape_spec(s.drop_first())
    } else if s.len() == 1 {
        seq![0x5Cu8]
    } else {
        let c = s[1];
        let rest = s.subrange(2, s.len() as int);
        proof {
            lemma_hex_run_bounds(rest, 4);
            lemma_hex_run_bounds(rest, 2);
        }
        if simple_escape(c) is Some {
            seq![simple_escape(c)->0] + unescape_spec(rest)
        } else if c == 'u' {
            let (bytes, k) = unicode_escape(rest);
            bytes + unescape_spec(rest.skip(k as int))
        } else if c == 'x' {
            let (bytes, k) = byte_escape(rest);
            bytes + unescape_spec(rest.skip(k as int))
        } else {
            seq![0x5Cu8] + encode_utf8(seq![c]) + unescape_spec(rest)
        }
    }
}

/// The hexadecimal run is bounded by `max` and by the length, holds only hex digits,
/// and ends at a character that is not one (unless a bound stopped it).
pub proof fn lemma_hex_run_bounds(s: Seq<char>, max: nat)
    ensures
        hex_run(s, max) <= max,
        hex_run(s, max) <= s.len(),
        forall|i: int| 0 <= i < hex_run(s, max) ==> is_hex_char(#[trigger] s[i]),
        hex_run(s, max) < max && hex_run(s, max) < s.len() ==> !is_hex_char(s[hex_run(s, max) as int]),
    decreases max,
{
    if max == 0 || s.len() == 0 || !is_hex_char(s[0]) {
    } else {
        lemma_hex_run_bounds(s.drop_first(), (max - 1) as nat);
        assert forall|i: int| 0 <= i < hex_run(s, max) implies is_hex_char(#[trigger] s[i]) by {
            if i > 0 {
                assert(s[i] == s.drop_first()[i - 1]);
            }
        }
    }
}

/// Sixteen to the power `n`.
pub open spec fn pow16(n: nat) -> nat
    decreases n,
{
    if n == 0 {
        1
    } else {
        16 * pow16((n - 1) as nat)
    }
}

proof fn lemma_hex_value_bound(d: Seq<char>)
    requires
        forall|i: int| 0 <= i < d.len() ==> is_hex_char(#[trigger] d[i]),
    ensures
        hex_value(d) < pow16(d.len()),
        d.len() <= 2 ==> hex_value(d) < 256,
        d.len() <= 4 ==> hex_value(d) < 65536,
    decreases d.len(),
{
    reveal_with_fuel(pow16, 5);
    if d.len() > 0 {
        let p = d.drop_last();
        assert forall|i: int| 0 <= i < p.len() implies is_hex_char(#[trigger] p[i]) by {
            assert(p[i] == d[i]);
        }
        lemma_hex_value_bound(p);
        assert(is_hex_char(d[d.len() - 1]));
        assert(hex_digit_value(d.last()) < 16);
        lemma_pow16_mono(d.len());
    }
}

proof fn lemma_pow16_mono(n: nat)
    ensures
        n <= 2 ==> pow16(n) <= 256,
        n <= 4 ==> pow16(n) <= 65536,
{
    reveal_with_fuel(pow16, 5);
}

/// The value of an ASCII hexadecimal digit.
fn hex_digit(c: char) -> (v: u32)
    requires
        is_hex_char(c),
    ensures
        v == hex_digit_value(c),
        v < 16,
{
    if '0' <= c && c <= '9' {
        (c as u32) - ('0' as u32)
    } else if 'a' <= c && c <= 'f' {
        (c as u32) - ('a' as u32) + 10
    } else {
        (c as u32) - ('A' as u32) + 10
    }
}

/// Reads up to `max` hex digits of `chars` starting at `start`; returns how many
/// were read and the value they denote.
fn read_hex_run(chars: &Vec<char>, start: usize, max: usize) -> (r: (usize, u32))
    requires
        start <= chars@.len(),
        max <= 4,
    ensures
        r.0 == hex_run(chars@.skip(start as int), max as nat),
        r.1 == hex_value(chars@.skip(start as int).take(r.0 as int)),
        r.1 < 65536,
{
    let ghost rest = chars@.skip(start as int);
    proof {
        lemma_hex_run_bounds(rest, max as nat);
    }
    let mut k: usize = 0;
    let mut v: u32 = 0;
    while k < max && k < chars.len() - start && is_hex_ascii(chars[start + k])
        invariant
            start <= chars@.len(),
            rest == chars@.skip(start as int),
            max <= 4,
            k <= max,
            k <= hex_run(rest, max as nat),
            hex_run(rest, max as nat) <= max,
            hex_run(rest, max as nat) <= rest.len(),
            forall|i: int| 0 <= i < hex_run(rest, max as nat) ==> is_hex_char(#[trigger] rest[i]),
            hex_run(rest, max as nat) < max && hex_run(rest, max as nat) < rest.len() ==> !is_hex_char(
                rest[hex_run(rest, max as nat) as int],
            ),
            rest.len() == chars@.len() - start,
            v == hex_value(rest.take(k as int)),
            v < 65536,
        decreases max - k,
    {
        let ghost d = rest.take(k as int + 1);
        assert(chars[start + k] == rest[k as int]);
        proof {
            if k >= hex_run(rest, max as nat) {
                // the digit just read would extend the run beyond its length
                assert(false);
            }
            assert(d.drop_last() =~= rest.take(k as int));
            assert forall|i: int| 0 <= i < d.len() implies is_hex_char(#[trigger] d[i]) by {
                assert(d[i] == rest[i]);
            }
            lemma_hex_value_bound(d);
        }
        v = v * 16 + hex_digit(chars[start + k]);
        k = k + 1;
    }
    proof {
        if k < hex_run(rest, max as nat) {
            assert(chars@[start + k] == rest[k as int]);
            assert(is_hex_char(rest[k as int]));
        }
    }
    (k, v)
}

/// True for the ASCII hexadecimal digits.
fn is_hex_ascii(c: char) -> (b: bool)
    ensures
        b == is_hex_char(c),
{
    ('0' <= c && c <= '9') || ('a' <= c && c <= 'f') || ('A' <= c && c <= 'F')
}

/// Parse C-style escape sequences in a string (`\n`, `\r`, `\t`, `\b`, `\f`,
/// `\\`, `\e`, `\xHH`, `\uXXXX`).
pub fn unescape(s: &str) -> (result: Vec<u8>)
    ensures
        result@ == unescape_spec(s@),
{
    let chars = str_to_chars(s);
    let n = chars.len();
    assert(chars@.skip(0) =~= chars@);
    let mut result: Vec<u8> = Vec::new();
    let mut i: usize = 0;
    while i < n
        invariant
            n == chars@.len(),
            chars@ == s@,
            i <= n,
            result@ + unescape_spec(chars@.skip(i as int)) == unescape_spec(s@),
        decreases n - i,
    {
        let ghost before = result@;
        let ghost tail = chars@.skip(i as int);
        let c = chars[i];
        assert(tail[0] == c);
        if c != '\\' {
            push_char_utf8(&mut result, c);
            assert(tail.drop_first() =~= chars@.skip(i + 1));
            assert(before + (encode_utf8(seq![c]) + unescape_spec(tail.drop_first())) =~= result@
                + unescape_spec(chars@.skip(i + 1)));
            i = i + 1;
        } else if i + 1 == n {
            result.push(0x5C);
            assert(tail.len() == 1);
            assert(chars@.skip(i + 1).len() == 0);
            assert(result@ + unescape_spec(chars@.skip(i + 1)) =~= before + seq![0x5Cu8]);
            i = i + 1;
        } else {
            let e = chars[i + 1];
            assert(tail[1] == e);
            let ghost rest = tail.subrange(2, tail.len() as int);
            assert(rest =~= chars@.skip(i + 2));
            let simple = simple_byte(e);
            if let Some(b) = simple {
                result.push(b);
                assert(before + (seq![b] + unescape_spec(rest)) =~= result@ + unescape_spec(
                    chars@.skip(i + 2),
                ));
                i = i + 2;
            } else if e == 'u' {
                let (k, v) = read_hex_run(&chars, i + 2, 4);
                proof {
                    lemma_hex_run_bounds(rest, 4);
                }
                if k == 0 {
                    result.push(0x5C);
                    result.push(0x75);
                } else if !(0xD800 <= v && v <= 0xDFFF) {
                    push_scalar_utf8(&mut result, v);
                }
                let ghost (bytes, kk) = unicode_escape(rest);
                assert(kk == k);
                assert(result@ =~= before + bytes);
                assert(rest.skip(k as int) =~= chars@.skip((i + 2 + k) as int));
                assert(before + (bytes + unescape_spec(rest.skip(k as int))) =~= result@
                    + unescape_spec(chars@.skip((i + 2 + k) as int)));
                i = i + 2 + k;
            } else if e == 'x' {
                let (k, v) = read_hex_run(&chars, i + 2, 2);
                proof {
                    lemma_hex_run_bounds(rest, 2);
                    let d = rest.take(k as int);
                    assert forall|j: int| 0 <= j < d.len() implies is_hex_char(#[trigger] d[j]) by {
                        assert(d[j] == rest[j]);
                    }
                    lemma_hex_value_bound(d);
                }
                if k == 0 {
                    result.push(0x5C);
                    result.push(0x78);
                } else {
                    result.push(v as u8);
                }
                let ghost (bytes, kk) = byte_escape(rest);
                assert(kk == k);
                assert(result@ =~= before + bytes);
                assert(rest.skip(k as int) =~= chars@.skip((i + 2 + k) as int));
                assert(before + (bytes + unescape_spec(rest.skip(k as int))) =~= result@
                    + unescape_spec(chars@.skip((i + 2 + k) as int)));
                i = i + 2 + k;
            } else {
                result.push(0x5C);
                let ghost mid = result@;
                push_char_utf8(&mut result, e);
                assert(before + (seq![0x5Cu8] + encode_utf8(seq![e]) + unescape_spec(rest))
                    =~= result@ + unescape_spec(chars@.skip(i + 2)));
                i = i + 2;
            }
        }
    }
    assert(chars@.skip(n as int).len() == 0);
    assert(result@ + unescape_spec(chars@.skip(n as int)) =~= result@);
    result
}

/// The byte a one-letter escape stands for.
fn simple_byte(c: char) -> (r: Option<u8>)
    ensures
        r == simple_escape(c),
{
    if c == 'n' {
        Some(0x0A)
    } else if c == 'r' {
        Some(0x0D)
    } else if c == 't' {
        Some(0x09)
    } else if c == 'b' {
        Some(0x08)
    } else if c == 'f' {
        Some(0x0C)
    } else if c == '\\' {
        Some(0x5C)
    } else if c == '0' {
        Some(0x00)
    } else if c == 'a' {
        Some(0x07)
    } else if c == 'e' || c == 'E' {
        Some(0x1B)
    } else {
        None
    }
}


/// A string without backslashes stands for its own UTF-8 encoding.
pub proof fn lemma_unescape_plain(s: Seq<char>)
    requires
        forall|i: int| 0 <= i < s.len() ==> s[i] != '\\',
    ensures
        unescape_spec(s) == encode_utf8(s),
    decreases s.len(),
{
    if s.len() > 0 {
        let t = s.drop_first();
        assert forall|i: int| 0 <= i < t.len() implies t[i] != '\\' by {
            assert(t[i] == s[i + 1]);
        }
        lemma_unescape_plain(t);
        crate::text::lemma_encode_utf8_single(s[0]);
    }
}

/// The bytes of a text are those of its first part followed by those of the rest,
/// when the first part is one character other than a backslash (its UTF-8 encoding)
/// or one of the escapes `\n` (line feed), `\r` (carriage return), `\t` (tab),
/// `\b` (backspace), `\f` (form feed), `\\` (backslash), `\0` (NUL), `\a` (bell),
/// `\e` and `\E` (escape).
pub proof fn lemma_unescape_prefix(c: char, rest: Seq<char>)
    ensures
        c != '\\' ==> unescape_spec(seq![c] + rest) == encode_utf8(seq![c]) + unescape_spec(rest),
        unescape_spec(seq!['\\', 'n'] + rest) == seq![0x0Au8] + unescape_spec(rest),
        unescape_spec(seq!['\\', 'r'] + rest) == seq![0x0Du8] + unescape_spec(rest),
        unescape_spec(seq!['\\', 't'] + rest) == seq![0x09u8] + unescape_spec(rest),
        unescape_spec(seq!['\\', 'b'] + rest) == seq![0x08u8] + unescape_spec(rest),
        unescape_spec(seq!['\\', 'f'] + rest) == seq![0x0Cu8] + unescape_spec(rest),
        unescape_spec(seq!['\\', '\\'] + rest) == seq![0x5Cu8] + unescape_spec(rest),
        unescape_spec(seq!['\\', '0'] + rest) == seq![0x00u8] + unescape_spec(rest),
        unescape_spec(seq!['\\', 'a'] + rest) == seq![0x07u8] + unescape_spec(rest),
        unescape_spec(seq!['\\', 'e'] + rest) == seq![0x1Bu8] + unescape_spec(rest),
        unescape_spec(seq!['\\', 'E'] + rest) == seq![0x1Bu8] + unescape_spec(rest),
{
    let t = seq![c] + rest;
    assert(t[0] == c);
    assert(t.drop_first() =~= rest);
    lemma_simple_escape_prefix('n', rest);
    lemma_simple_escape_prefix('r', rest);
    lemma_simple_escape_prefix('t', rest);
    lemma_simple_escape_prefix('b', rest);
    lemma_simple_escape_prefix('f', rest);
    lemma_simple_escape_prefix('\\', rest);
    lemma_simple_escape_prefix('0', rest);
    lemma_simple_escape_prefix('a', rest);
    lemma_simple_escape_prefix('e', rest);
    lemma_simple_escape_prefix('E', rest);
}

proof fn lemma_simple_escape_prefix(c: char, rest: Seq<char>)
    requires
        simple_escape(c) is Some,
    ensures
        unescape_spec(seq!['\\', c] + rest) == seq![simple_escape(c)->0] + unescape_spec(rest),
{
    let u = seq!['\\', c] + rest;
    assert(u[0] == '\\' && u[1] == c);
    assert(u.subrange(2, u.len() as int) =~= rest);
}

/// `\x` with two hexadecimal digits stands for the byte they denote (the first
/// digit the high one), followed by the bytes of the rest.
pub proof fn lemma_unescape_hex_byte(h: char, l: char, rest: Seq<char>)
    requires
        is_hex_char(h),
        is_hex_char(l),
    ensures
        unescape_spec(seq!['\\', 'x', h, l] + rest) == seq![(hex_digit_value(h) * 16 + hex_digit_value(l)) as u8]
            + unescape_spec(rest),
{
    let u = seq!['\\', 'x', h, l] + rest;
    assert(u[0] == '\\' && u[1] == 'x');
    let r = u.subrange(2, u.len() as int);
    assert(r =~= seq![h, l] + rest);
    assert(r[0] == h && r[1] == l);
    assert(r.drop_first()[0] == l);
    reveal_with_fuel(hex_run, 3);
    assert(hex_run(r, 2) == 2);
    assert(r.take(2) =~= seq![h, l]);
    assert(seq![h, l].drop_last() =~= seq![h]);
    assert(seq![h].drop_last() =~= Seq::<char>::empty());
    assert(seq![h].last() == h && seq![h, l].last() == l);
    assert(hex_value(Seq::<char>::empty()) == 0);
    assert(hex_value(seq![h]) == hex_digit_value(h));
    assert(hex_value(seq![h, l]) == hex_digit_value(h) * 16 + hex_digit_value(l));
    assert(r.skip(2) =~= rest);
}
} // verus!
