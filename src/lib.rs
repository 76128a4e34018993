//! Small utilities: IPv4 address and CIDR rule matching, text helpers,
//! TLV byte framing and a few parsers of command output.
use vstd::prelude::*;
use vstd::string::*;

pub mod util_net;
pub mod util_str;
pub mod util_tlv;
pub mod util_env;
pub mod util_msg;
pub mod util_file;
pub mod util_git;
pub mod util_time;
pub mod util_io;
pub mod util_term;

verus! {

/// An error carrying a message and, optionally, the message of the error that
/// caused it.
#[derive(Debug, Clone)]
pub struct SimpleError {
    pub message: String,
    pub source: Option<String>,
}

impl SimpleError {
    /// An error with a message and no cause.
    pub fn new(message: String) -> (r: Self)
        ensures
            r.message@ == message@,
            r.source is None,
    {
        SimpleError { message, source: None }
    }

    /// An error with a message and the message of its cause.
    pub fn new2(message: String, source: String) -> (r: Self)
        ensures
            r.message@ == message@,
            r.source matches Some(s) && s@ == source@,
    {
        SimpleError { message, source: Some(source) }
    }

    /// The error as one line of text, with the cause's message where there is one.
    pub fn to_text(&self) -> (r: String)
        ensures
            r@ == match self.source {
                None => "SimpleErorr, message: "@ + self.message@,
                Some(s) => "SimpleErorr, message: "@ + self.message@ + ", source erorr: "@ + s@,
            },
    {
        let mut r = String::from_str("SimpleErorr, message: ");
        r.append(self.message.as_str());
        match &self.source {
            None => {},
            Some(s) => {
                r.append(", source erorr: ");
                r.append(s.as_str());
            },
        }
        r
    }
}

} // verus!
