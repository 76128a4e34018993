//! Reading switches such as `true` / `off` out of configuration values.
use vstd::prelude::*;
use crate::util_str::{lower_of, text_eq, to_lowercase};

verus! {

/// A lowercase word that switches something on.
pub open spec fn on_word(w: Seq<char>) -> bool {
    w == "true"@ || w == "yes"@ || w == "1"@
}

/// A lowercase word that switches something off.
pub open spec fn off_word(w: Seq<char>) -> bool {
    w == "false"@ || w == "no"@ || w == "0"@
}

/// Whether an already lowercased value is one of `true`, `yes`, `1`.
pub fn is_on_lowercase(lower_val: &str) -> (r: bool)
    ensures
        r == on_word(lower_val@),
{
    text_eq(lower_val, "true") || text_eq(lower_val, "yes") || text_eq(lower_val, "1")
}

/// Whether an already lowercased value is one of `false`, `no`, `0`.
pub fn is_off_lowercase(lower_val: &str) -> (r: bool)
    ensures
        r == off_word(lower_val@),
{
    text_eq(lower_val, "false") || text_eq(lower_val, "no") || text_eq(lower_val, "0")
}

/// Whether `val`, in any case, is one of `true`, `yes`, `1`.
pub fn is_on(val: &str) -> (r: bool)
    ensures
        r == on_word(lower_of(val@)),
{
    let lower_val = to_lowercase(val);
    is_on_lowercase(lower_val.as_str())
}

/// Whether `val`, in any case, is one of `false`, `no`, `0`.
pub fn is_off(val: &str) -> (r: bool)
    ensures
        r == off_word(lower_of(val@)),
{
    let lower_val = to_lowercase(val);
    is_off_lowercase(lower_val.as_str())
}

/// Whether a setting's value, if it has one, switches it on.
pub fn is_env_on(value: &Option<String>) -> (r: bool)
    ensures
        r == (value matches Some(v) && on_word(lower_of(v@))),
{
    match value {
        Some(v) => is_on(v.as_str()),
        None => false,
    }
}

/// Whether a setting's value, if it has one, switches it off.
pub fn is_env_off(value: &Option<String>) -> (r: bool)
    ensures
        r == (value matches Some(v) && off_word(lower_of(v@))),
{
    match value {
        Some(v) => is_off(v.as_str()),
        None => false,
    }
}

} // verus!
