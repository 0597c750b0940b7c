//! The texts of error reports.

use vstd::prelude::*;
use crate::text::{decimal, text_of, usize_to_text};

verus! {

/// `[line N] Error<at>: <message>`.
pub open spec fn error_text(line: nat, at: Seq<char>, message: Seq<char>) -> Seq<char> {
    "[line "@ + decimal(line) + "] Error"@ + at + ": "@ + message
}

/// `<message>\n[line N]`.
pub open spec fn runtime_error_text(line: nat, message: Seq<char>) -> Seq<char> {
    message + "\n[line "@ + decimal(line) + "]"@
}

/// A static error report for `line` that names no token.
pub fn fmt_error(line: usize, message: &str) -> (s: String)
    ensures
        s@ == error_text(line as nat, Seq::empty(), message@),
{
    proof {
        reveal_strlit("");
    }
    fmt_error_at(line, "", message)
}

/// A static error report for `line`, located by `at` (such as ` at 'x'`).
pub fn fmt_error_at(line: usize, at: &str, message: &str) -> (s: String)
    ensures
        s@ == error_text(line as nat, at@, message@),
{
    let mut s = text_of("[line ");
    let n = usize_to_text(line);
    s.append(n.as_str());
    s.append("] Error");
    s.append(at);
    s.append(": ");
    s.append(message);
    s
}

/// A runtime (or resolution) error report: the message, then the line.
pub fn fmt_runtime_error(line: usize, message: &str) -> (s: String)
    ensures
        s@ == runtime_error_text(line as nat, message@),
{
    let mut s = text_of(message);
    s.append("\n[line ");
    let n = usize_to_text(line);
    s.append(n.as_str());
    s.append("]");
    s
}

} // verus!
