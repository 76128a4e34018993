//! Reading answers typed at a terminal.
use vstd::prelude::*;
use crate::util_str::{lower_of, text_eq, to_lowercase, trim, trimmed};

verus! {

/// The answer that an already trimmed and lowercased reply gives: `y` or `yes`
/// is yes, `n` or `no` is no; anything else is no answer.
pub open spec fn answer_of(w: Seq<char>) -> Option<bool> {
    if w == "y"@ || w == "yes"@ {
        Some(true)
    } else if w == "n"@ || w == "no"@ {
        Some(false)
    } else {
        None
    }
}

/// The answer that an already trimmed and lowercased reply gives.
pub fn yes_no_of_lowercase(w: &str) -> (r: Option<bool>)
    ensures
        r == answer_of(w@),
{
    if text_eq(w, "y") || text_eq(w, "yes") {
        Some(true)
    } else if text_eq(w, "n") || text_eq(w, "no") {
        Some(false)
    } else {
        None
    }
}

/// The answer that a reply to a yes/no question gives, read without surrounding
/// white space and in any case; nothing when the question must be asked again.
pub fn parse_yes_no(reply: &str) -> (r: Option<bool>)
    ensures
        r == answer_of(lower_of(trimmed(reply@))),
{
    let t = trim(reply);
    let lower = to_lowercase(t.as_str());
    yes_no_of_lowercase(lower.as_str())
}

} // verus!
