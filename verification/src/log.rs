//! The lines of the diagnostic log.
//!
//! Whether and where they are written is the program's own business.
use vstd::prelude::*;
use crate::text::{decimal, decimal_len, lemma_decimal_len, push_decimal, string_push, string_push_str, zero_pad};

verus! {

/// A log line: `[seconds.millis] message`, the milliseconds zero-padded to three
/// digits.
pub open spec fn log_line_spec(secs: u64, millis: u32, msg: Seq<char>) -> Seq<char> {
    seq!['['] + decimal(secs as nat) + seq!['.'] + zero_pad(decimal(millis as nat), 3) + seq![']', ' '] + msg
}

/// Formats a log line for a time since the epoch and a message.
pub fn log_line(secs: u64, millis: u32, msg: &str) -> (s: String)
    ensures
        s@ == log_line_spec(secs, millis, msg@),
{
    let mut s = String::new();
    string_push(&mut s, '[');
    push_decimal(&mut s, secs);
    string_push(&mut s, '.');
    let ghost before = s@;
    proof {
        lemma_decimal_len(millis as nat);
        reveal_with_fuel(decimal_len, 3);
    }
    if millis < 10 {
        string_push(&mut s, '0');
        string_push(&mut s, '0');
    } else if millis < 100 {
        string_push(&mut s, '0');
    }
    push_decimal(&mut s, millis as u64);
    assert(s@ =~= before + zero_pad(decimal(millis as nat), 3));
    string_push(&mut s, ']');
    string_push(&mut s, ' ');
    string_push_str(&mut s, msg);
    assert(s@ =~= log_line_spec(secs, millis, msg@));
    s
}

} // verus!
