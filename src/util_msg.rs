//! Message levels and the text work behind printing messages.
use vstd::prelude::*;
use vstd::string::*;
use vstd::utf8::*;
use crate::util_str::{lower_of, text_eq, to_lowercase, trim, trimmed};

verus! {

/// The level of a message, from the most verbose to the most severe.
#[derive(Debug, Clone, Copy, PartialEq, Eq)]
pub enum MessageType {
    DEBUG,
    INFO,
    OK,
    WARN,
    ERROR,
}

impl MessageType {
    /// The rank of the level: 0 for `DEBUG` up to 4 for `ERROR`.
    pub open spec fn rank(&self) -> u8 {
        match self {
            MessageType::DEBUG => 0,
            MessageType::INFO => 1,
            MessageType::OK => 2,
            MessageType::WARN => 3,
            MessageType::ERROR => 4,
        }
    }

    /// The rank of the level: 0 for `DEBUG` up to 4 for `ERROR`.
    pub fn get_u8_value(&self) -> (r: u8)
        ensures
            r == self.rank(),
    {
        match self {
            MessageType::DEBUG => 0,
            MessageType::INFO => 1,
            MessageType::OK => 2,
            MessageType::WARN => 3,
            MessageType::ERROR => 4,
        }
    }
}

/// Whether a message of level `mt` is shown when the logger is set to `logger_level`.
pub fn is_logger_level_enabled(mt: MessageType, logger_level: MessageType) -> (r: bool)
    ensures
        r == (mt.rank() >= logger_level.rank()),
{
    mt.get_u8_value() >= logger_level.get_u8_value()
}

/// The level that an already trimmed and lowercased setting names.
pub open spec fn level_named(w: Seq<char>) -> Option<MessageType> {
    if w == "debug"@ || w == "*"@ {
        Some(MessageType::DEBUG)
    } else if w == "info"@ || w == "?"@ {
        Some(MessageType::INFO)
    } else if w == "ok"@ || w == "#"@ {
        Some(MessageType::OK)
    } else if w == "warn"@ || w == "!"@ {
        Some(MessageType::WARN)
    } else if w == "error"@ || w == "^"@ {
        Some(MessageType::ERROR)
    } else {
        None
    }
}

/// The level that an already trimmed and lowercased setting names, if any.
pub fn logger_level_of_lowercase(w: &str) -> (r: Option<MessageType>)
    ensures
        r == level_named(w@),
{
    if text_eq(w, "debug") || text_eq(w, "*") {
        Some(MessageType::DEBUG)
    } else if text_eq(w, "info") || text_eq(w, "?") {
        Some(MessageType::INFO)
    } else if text_eq(w, "ok") || text_eq(w, "#") {
        Some(MessageType::OK)
    } else if text_eq(w, "warn") || text_eq(w, "!") {
        Some(MessageType::WARN)
    } else if text_eq(w, "error") || text_eq(w, "^") {
        Some(MessageType::ERROR)
    } else {
        None
    }
}

/// The level that a logger setting names, read without surrounding white space
/// and in any case; nothing for an unknown name.
pub fn parse_logger_level(level: &str) -> (r: Option<MessageType>)
    ensures
        r == level_named(lower_of(trimmed(level@))),
{
    let t = trim(level);
    let lower = to_lowercase(t.as_str());
    logger_level_of_lowercase(lower.as_str())
}

/// The first character boundary of `bytes` at or after `index`; `index` itself
/// when it lies at or beyond the end.
pub open spec fn boundary_from(bytes: Seq<u8>, index: int) -> int
    decreases bytes.len() - index,
{
    if index >= bytes.len() || is_char_boundary(bytes, index) {
        index
    } else {
        boundary_from(bytes, index + 1)
    }
}

proof fn lemma_boundary_from(bytes: Seq<u8>, index: int, r: int)
    requires
        index <= r <= bytes.len(),
        is_char_boundary(bytes, r),
        forall|j: int| index <= j < r ==> !is_char_boundary(bytes, j),
    ensures
        boundary_from(bytes, index) == r,
    decreases r - index,
{
    if index < r {
        lemma_boundary_from(bytes, index + 1, r);
    }
}

/// The first character boundary of `s` at or after byte `index`; `index` itself
/// when it lies at or beyond the end.
pub fn find_char_boundary(s: &str, index: usize) -> (r: usize)
    requires
        s.spec_bytes().len() <= usize::MAX,
    ensures
        r == boundary_from(s.spec_bytes(), index as int),
        s.spec_bytes().len() <= index ==> r == index,
        s.spec_bytes().len() > index ==> {
            &&& index <= r <= s.spec_bytes().len()
            &&& is_char_boundary(s.spec_bytes(), r as int)
            &&& forall|j: int| index <= j < r ==> !is_char_boundary(s.spec_bytes(), j)
        },
{
    if s.len() <= index {
        return index;
    }
    proof {
        encode_utf8_valid_utf8(s@);
        is_char_boundary_start_end_of_seq(s.spec_bytes());
    }
    let mut new_index = index;
    while !s.is_char_boundary(new_index)
        invariant
            valid_utf8(s.spec_bytes()),
            is_char_boundary(s.spec_bytes(), s.spec_bytes().len() as int),
            index <= new_index <= s.spec_bytes().len(),
            s.spec_bytes().len() <= usize::MAX,
            forall|j: int| index <= j < new_index ==> !is_char_boundary(s.spec_bytes(), j),
        decreases s.spec_bytes().len() - new_index,
    {
        new_index = new_index + 1;
    }
    proof {
        lemma_boundary_from(s.spec_bytes(), index as int, new_index as int);
    }
    new_index
}

proof fn lemma_encode_concat(a: Seq<char>, b: Seq<char>)
    ensures
        encode_utf8(a + b) == encode_utf8(a) + encode_utf8(b),
    decreases a.len(),
{
    if a.len() == 0 {
        assert(a + b =~= b);
        assert(encode_utf8(a) + encode_utf8(b) =~= encode_utf8(b));
    } else {
        lemma_encode_concat(a.drop_first(), b);
        assert((a + b).drop_first() =~= a.drop_first() + b);
        assert((a + b)[0] == a[0]);
        assert(encode_utf8(a + b) =~= encode_utf8(a) + encode_utf8(b));
    }
}

/// `message` shortened to fit a terminal `width` bytes wide, `left` bytes of which
/// are taken: the head up to `width - 15 - left` bytes, `[...]`, and the last ten
/// bytes, each cut moved forward to a character boundary. A message narrower than
/// the terminal, or an unknown width, keeps the message whole.
pub fn get_term_width_message(message: &str, left: usize, width: Option<usize>) -> (r: String)
    requires
        message.spec_bytes().len() <= usize::MAX,
        width matches Some(w) ==> (w <= message.spec_bytes().len() ==> w >= 15 + left),
    ensures
        ({
            let bytes = message.spec_bytes();
            match width {
                Some(w) if w <= bytes.len() => {
                    let head = boundary_from(bytes, w - 15 - left);
                    let tail = boundary_from(bytes, bytes.len() - 10);
                    encode_utf8(r@) == bytes.subrange(0, head) + encode_utf8("[...]"@) + bytes.subrange(
                        tail,
                        bytes.len() as int,
                    )
                },
                _ => r@ == message@,
            }
        }),
{
    let w = match width {
        None => return String::from_str(message),
        Some(w) => w,
    };
    let len = message.len();
    if w > len {
        return String::from_str(message);
    }
    let head = find_char_boundary(message, w - 10 - 5 - left);
    let tail = find_char_boundary(message, len - 10);
    let (front, _) = message.split_at(head);
    let (_, back) = message.split_at(tail);
    let mark = "[...]";
    let mut s = String::from_str(front);
    s.append(mark);
    s.append(back);
    proof {
        lemma_encode_concat(front@, mark@);
        lemma_encode_concat(front@ + mark@, back@);
    }
    s
}

} // verus!
