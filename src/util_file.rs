//! Path text: joining path pieces and expanding a leading `~`.
use vstd::prelude::*;
use vstd::string::*;
use crate::util_str::{ends_with, starts_with, substring, text_eq};

verus! {

/// `path1` and `path2` joined by `sep`, with no second `sep` where `path1`
/// already ends with one.
pub open spec fn joined(path1: Seq<char>, path2: Seq<char>, sep: Seq<char>) -> Seq<char> {
    if sep.len() <= path1.len() && path1.skip(path1.len() - sep.len()) == sep {
        path1 + path2
    } else {
        path1 + sep + path2
    }
}

/// Joins two pieces of a path with the platform's separator `sep`.
pub fn join_path(path1: &str, path2: &str, sep: &str) -> (r: String)
    ensures
        r@ == joined(path1@, path2@, sep@),
{
    let mut r = String::from_str(path1);
    if !ends_with(path1, sep) {
        r.append(sep);
    }
    r.append(path2);
    r
}

/// `path` with a leading `~` replaced by the home directory `home`: `~` alone
/// becomes `home`, `~/rest` becomes `home/rest`; without a home directory, or
/// without such a `~`, the path is kept.
pub open spec fn resolved(path: Seq<char>, home: Option<Seq<char>>) -> Seq<char> {
    match home {
        None => path,
        Some(h) => if path == "~"@ {
            h
        } else if path.len() >= 2 && path[0] == '~' && path[1] == '/' {
            h + path.drop_first()
        } else {
            path
        },
    }
}

/// Expands a leading `~` of `path` to the home directory `home`, if there is one.
pub fn resolve_file_path(path: &str, home: Option<&str>) -> (r: String)
    ensures
        r@ == resolved(path@, match home {
            Some(h) => Some(h@),
            None => None,
        }),
{
    let home_path = match home {
        Some(p) => p,
        None => return String::from_str(path),
    };
    if text_eq(path, "~") {
        return String::from_str(home_path);
    }
    let tilde_slash = "~/";
    proof {
        reveal_strlit("~/");
        reveal_strlit("~");
    }
    if starts_with(path, tilde_slash) {
        let mut r = String::from_str(home_path);
        let n = path.unicode_len();
        let rest = substring(path, 1, n);
        proof {
            assert(path@[0] == path@.take(2)[0]);
            assert(path@[1] == path@.take(2)[1]);
            assert(rest@ =~= path@.drop_first());
        }
        r.append(rest.as_str());
        r
    } else {
        proof {
            if path@.len() >= 2 && path@[0] == '~' && path@[1] == '/' {
                assert(path@.take(2) =~= tilde_slash@);
            }
        }
        String::from_str(path)
    }
}

} // verus!
