//! The debug log's line format.
use crate::text::{append_str, string_from_chars};
use crate::ui::{decimal, push_decimal};
use vstd::prelude::*;

verus! {

/// The log line for `message` written at `timestamp` (seconds since the Unix epoch).
pub open spec fn log_line_text(timestamp: u64, message: Seq<char>) -> Seq<char> {
    seq!['['] + decimal(timestamp as nat) + seq![']', ' '] + message
}

/// The log line for `message` written at `timestamp`: "[timestamp] message".
pub fn log_line(timestamp: u64, message: &str) -> (res: String)
    ensures
        res@ == log_line_text(timestamp, message@),
{
    let mut v: Vec<char> = Vec::new();
    v.push('[');
    push_decimal(&mut v, timestamp);
    v.push(']');
    v.push(' ');
    append_str(&mut v, message);
    proof {
        assert(v@ =~= log_line_text(timestamp, message@));
    }
    string_from_chars(&v)
}

} // verus!
