//! The lines that the validation engine logs.

use vstd::prelude::*;

verus! {

/// A message without the line end that may close it.
pub open spec fn without_line_end(message: Seq<char>) -> Seq<char> {
    let n = message.len();
    if n >= 2 && message[n - 2] == '\r' && message[n - 1] == '\n' {
        message.take(n - 2)
    } else if n >= 1 && message[n - 1] == '\n' {
        message.take(n - 1)
    } else {
        message
    }
}

/// The text to log for a message of the validation engine.
pub fn log_line(message: &str) -> (line: &str)
    ensures
        line@ == without_line_end(message@),
{
    let n = message.unicode_len();
    if n == 0 || message.get_char(n - 1) != '\n' {
        message
    } else if n >= 2 && message.get_char(n - 2) == '\r' {
        message.substring_char(0, n - 2)
    } else {
        message.substring_char(0, n - 1)
    }
}

/// A line end is taken off once, whether it is one character or two, and nothing else is.
pub proof fn law_line_ends_are_taken_off(text: Seq<char>, line: &str, message: &str)
    requires
        call_ensures(log_line, (message,), line),
    ensures
        message@ == text.push('\r').push('\n') ==> line@ == text,
        message@ == text.push('\n') && (text.len() == 0 || text.last() != '\r') ==> line@ == text,
        message@.len() == 0 || message@.last() != '\n' ==> line@ == message@,
{
    if message@ == text.push('\r').push('\n') {
        assert(message@.take(message@.len() - 2) =~= text);
    } else if message@ == text.push('\n') {
        assert(message@.take(message@.len() - 1) =~= text);
    }
}

} // verus!
