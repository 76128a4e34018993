//! Reading the changes that `git status` reports.
use vstd::prelude::*;
use vstd::string::*;
use crate::SimpleError;
use crate::util_str::{
    chars_of, line_at, line_count, read_str_to_lines, starts_with, substring, trim, trimmed, views,
};

verus! {

/// The changes listed in `git status` output.
#[derive(Debug, Clone, Default)]
pub struct GitStatusChange {
    pub added: Vec<String>,
    pub modified: Vec<String>,
    pub renamed: Vec<(String, String)>,
    pub deleted: Vec<String>,
    pub untracked: Vec<String>,
}

/// The changes of a `git status` report as texts.
pub struct GitStatusView {
    pub added: Seq<Seq<char>>,
    pub modified: Seq<Seq<char>>,
    pub renamed: Seq<(Seq<char>, Seq<char>)>,
    pub deleted: Seq<Seq<char>>,
    pub untracked: Seq<Seq<char>>,
}

/// What one line of a `git status` report says.
pub enum StatusEntry {
    Added(Seq<char>),
    Modified(Seq<char>),
    Renamed(Seq<char>, Seq<char>),
    Deleted(Seq<char>),
    Untracked(Seq<char>),
}

/// The position of the first `->` in `s`, or `s.len()` when there is none.
pub open spec fn arrow_index(s: Seq<char>) -> int
    decreases s.len(),
{
    if s.len() < 2 {
        s.len() as int
    } else if s[0] == '-' && s[1] == '>' {
        0
    } else {
        1 + arrow_index(s.drop_first())
    }
}

/// `s` starts with `p`.
pub open spec fn has_prefix(s: Seq<char>, p: Seq<char>) -> bool {
    p.len() <= s.len() && s.take(p.len() as int) == p
}

/// The entry that line `ln` of a report holds: only lines that start with a tab
/// list files; a rename needs a `->` between the old and the new name.
pub open spec fn entry_of(ln: Seq<char>) -> Option<StatusEntry> {
    let t = trimmed(ln);
    if !(ln.len() > 0 && ln[0] == '\t') {
        None
    } else if has_prefix(t, "new file:"@) {
        Some(StatusEntry::Added(trimmed(t.skip(9))))
    } else if has_prefix(t, "deleted:"@) {
        Some(StatusEntry::Deleted(trimmed(t.skip(8))))
    } else if has_prefix(t, "modified:"@) {
        Some(StatusEntry::Modified(trimmed(t.skip(9))))
    } else if has_prefix(t, "renamed:"@) {
        let f = trimmed(t.skip(8));
        let i = arrow_index(f);
        if i < f.len() {
            let rest = f.skip(i + 2);
            Some(StatusEntry::Renamed(trimmed(f.take(i)), trimmed(rest.take(arrow_index(rest)))))
        } else {
            None
        }
    } else {
        Some(StatusEntry::Untracked(t))
    }
}

/// The changes that the report lines `lines` list, in order.
pub open spec fn status_of(lines: Seq<Seq<char>>) -> GitStatusView
    decreases lines.len(),
{
    if lines.len() == 0 {
        GitStatusView {
            added: Seq::empty(),
            modified: Seq::empty(),
            renamed: Seq::empty(),
            deleted: Seq::empty(),
            untracked: Seq::empty(),
        }
    } else {
        let v = status_of(lines.drop_last());
        match entry_of(lines.last()) {
            Some(StatusEntry::Added(f)) => GitStatusView { added: v.added.push(f), ..v },
            Some(StatusEntry::Modified(f)) => GitStatusView { modified: v.modified.push(f), ..v },
            Some(StatusEntry::Renamed(a, b)) => GitStatusView { renamed: v.renamed.push((a, b)), ..v },
            Some(StatusEntry::Deleted(f)) => GitStatusView { deleted: v.deleted.push(f), ..v },
            Some(StatusEntry::Untracked(f)) => GitStatusView { untracked: v.untracked.push(f), ..v },
            None => v,
        }
    }
}

/// The lines of `s`.
pub open spec fn lines_of(s: Seq<char>) -> Seq<Seq<char>> {
    Seq::new(line_count(s) as nat, |i: int| line_at(s, i))
}

/// The views of pairs of strings.
pub open spec fn pair_views(v: Seq<(String, String)>) -> Seq<(Seq<char>, Seq<char>)> {
    v.map_values(|p: (String, String)| (p.0@, p.1@))
}

impl GitStatusChange {
    /// The changes as texts.
    pub open spec fn status_view(&self) -> GitStatusView {
        GitStatusView {
            added: views(self.added@),
            modified: views(self.modified@),
            renamed: pair_views(self.renamed@),
            deleted: views(self.deleted@),
            untracked: views(self.untracked@),
        }
    }

    /// Whether no file is added, modified, deleted or untracked; renames are not counted.
    pub fn is_empty(&self) -> (r: bool)
        ensures
            r == (self.added@.len() == 0 && self.modified@.len() == 0 && self.deleted@.len() == 0
                && self.untracked@.len() == 0),
    {
        self.added.len() == 0 && self.modified.len() == 0 && self.deleted.len() == 0
            && self.untracked.len() == 0
    }
}

/// The position of the first `->` in `s`.
fn find_arrow(s: &str) -> (r: usize)
    ensures
        r == arrow_index(s@),
        r <= s@.len(),
        r < s@.len() ==> r + 2 <= s@.len(),
{
    let chars = chars_of(s);
    let n = chars.len();
    let mut i: usize = 0;
    proof {
        assert(s@.skip(0) =~= s@);
    }
    while n - i >= 2 && !(chars[i] == '-' && chars[i + 1] == '>')
        invariant
            n == s@.len(),
            chars@ == s@,
            i <= n,
            arrow_index(s@) == i + arrow_index(s@.skip(i as int)),
        decreases n - i,
    {
        proof {
            assert(s@.skip(i as int).drop_first() =~= s@.skip(i + 1));
        }
        i = i + 1;
    }
    if n - i >= 2 {
        i
    } else {
        proof {
            assert(s@.skip(i as int).len() < 2);
        }
        n
    }
}

/// One file entry of a report, as read from a line.
enum Entry {
    Added(String),
    Modified(String),
    Renamed(String, String),
    Deleted(String),
    Untracked(String),
}

impl Entry {
    spec fn view(&self) -> StatusEntry {
        match self {
            Entry::Added(f) => StatusEntry::Added(f@),
            Entry::Modified(f) => StatusEntry::Modified(f@),
            Entry::Renamed(a, b) => StatusEntry::Renamed(a@, b@),
            Entry::Deleted(f) => StatusEntry::Deleted(f@),
            Entry::Untracked(f) => StatusEntry::Untracked(f@),
        }
    }
}

/// Reads the entry of one report line.
fn entry_of_line(ln: &str) -> (r: Option<Entry>)
    ensures
        r is None <==> entry_of(ln@) is None,
        r matches Some(e) ==> entry_of(ln@) == Some(e.view()),
{
    let tab = "\t";
    let new_file = "new file:";
    let deleted = "deleted:";
    let modified = "modified:";
    let renamed = "renamed:";
    proof {
        reveal_strlit("\t");
        reveal_strlit("new file:");
        reveal_strlit("deleted:");
        reveal_strlit("modified:");
        reveal_strlit("renamed:");
    }
    if !starts_with(ln, tab) {
        proof {
            if ln@.len() > 0 && ln@[0] == '\t' {
                assert(ln@.take(1) =~= tab@);
            }
        }
        return None;
    }
    proof {
        assert(ln@[0] == ln@.take(1)[0]);
    }
    let t = trim(ln);
    let n = t.as_str().unicode_len();
    if starts_with(t.as_str(), new_file) {
        let f = trim(substring(t.as_str(), 9, n).as_str());
        proof {
            assert(t@.subrange(9, n as int) =~= t@.skip(9));
        }
        Some(Entry::Added(f))
    } else if starts_with(t.as_str(), deleted) {
        let f = trim(substring(t.as_str(), 8, n).as_str());
        proof {
            assert(t@.subrange(8, n as int) =~= t@.skip(8));
        }
        Some(Entry::Deleted(f))
    } else if starts_with(t.as_str(), modified) {
        let f = trim(substring(t.as_str(), 9, n).as_str());
        proof {
            assert(t@.subrange(9, n as int) =~= t@.skip(9));
        }
        Some(Entry::Modified(f))
    } else if starts_with(t.as_str(), renamed) {
        let f = trim(substring(t.as_str(), 8, n).as_str());
        proof {
            assert(t@.subrange(8, n as int) =~= t@.skip(8));
        }
        let fs = f.as_str();
        let m = fs.unicode_len();
        let i = find_arrow(fs);
        if i >= m {
            return None;
        }
        let rest = substring(fs, i + 2, m);
        let j = find_arrow(rest.as_str());
        let fa = trim(substring(fs, 0, i).as_str());
        let fb = trim(substring(rest.as_str(), 0, j).as_str());
        proof {
            assert(f@.subrange(i + 2, m as int) =~= f@.skip(i + 2));
            assert(f@.subrange(0, i as int) =~= f@.take(i as int));
            assert(rest@.subrange(0, j as int) =~= rest@.take(j as int));
        }
        Some(Entry::Renamed(fa, fb))
    } else {
        Some(Entry::Untracked(t))
    }
}

/// Reads the files that `git status` output lists as added, modified, renamed,
/// deleted or untracked.
pub fn parse_git_status_change(git_status: &str) -> (r: Result<GitStatusChange, SimpleError>)
    ensures
        r matches Ok(c) && c.status_view() == status_of(lines_of(git_status@)),
{
    let mut c = GitStatusChange {
        added: Vec::new(),
        modified: Vec::new(),
        renamed: Vec::new(),
        deleted: Vec::new(),
        untracked: Vec::new(),
    };
    let lines = read_str_to_lines(git_status);
    let ghost all = lines_of(git_status@);
    let n = lines.len();
    proof {
        assert(all.take(0) =~= Seq::<Seq<char>>::empty());
        assert(views(c.added@) =~= Seq::<Seq<char>>::empty());
        assert(views(c.modified@) =~= Seq::<Seq<char>>::empty());
        assert(pair_views(c.renamed@) =~= Seq::<(Seq<char>, Seq<char>)>::empty());
        assert(views(c.deleted@) =~= Seq::<Seq<char>>::empty());
        assert(views(c.untracked@) =~= Seq::<Seq<char>>::empty());
    }
    for i in 0..n
        invariant
            n == lines@.len(),
            all == lines_of(git_status@),
            all.len() == n,
            forall|j: int| 0 <= j < n ==> #[trigger] lines@[j]@ == all[j],
            c.status_view() == status_of(all.take(i as int)),
    {
        let ghost before = c.status_view();
        proof {
            assert(all.take(i + 1).drop_last() =~= all.take(i as int));
            assert(all.take(i + 1).last() == lines@[i as int]@);
        }
        match entry_of_line(lines[i].as_str()) {
            Some(Entry::Added(f)) => {
                c.added.push(f);
                proof {
                    assert(views(c.added@) =~= before.added.push(f@));
                }
            },
            Some(Entry::Modified(f)) => {
                c.modified.push(f);
                proof {
                    assert(views(c.modified@) =~= before.modified.push(f@));
                }
            },
            Some(Entry::Renamed(a, b)) => {
                c.renamed.push((a, b));
                proof {
                    assert(pair_views(c.renamed@) =~= before.renamed.push((a@, b@)));
                }
            },
            Some(Entry::Deleted(f)) => {
                c.deleted.push(f);
                proof {
                    assert(views(c.deleted@) =~= before.deleted.push(f@));
                }
            },
            Some(Entry::Untracked(f)) => {
                c.untracked.push(f);
                proof {
                    assert(views(c.untracked@) =~= before.untracked.push(f@));
                }
            },
            None => {},
        }
    }
    proof {
        assert(all.take(n as int) =~= all);
    }
    Ok(c)
}


/// The branch that the first line marked with `*` names, among `lines`.
pub open spec fn marked_branch(lines: Seq<Seq<char>>) -> Option<Seq<char>>
    decreases lines.len(),
{
    if lines.len() == 0 {
        None
    } else {
        let t = trimmed(lines[0]);
        if t.len() > 0 && t[0] == '*' {
            Some(trimmed(t.drop_first()))
        } else {
            marked_branch(lines.drop_first())
        }
    }
}

/// The current branch in `git branch` output: the first line that starts with
/// `*`, without the mark and surrounding white space.
pub fn parse_current_branch(git_branch: &str) -> (r: Option<String>)
    ensures
        match marked_branch(lines_of(git_branch@)) {
            Some(b) => r matches Some(x) && x@ == b,
            None => r is None,
        },
{
    let lines = read_str_to_lines(git_branch);
    let ghost all = lines_of(git_branch@);
    let n = lines.len();
    proof {
        assert(all.skip(0) =~= all);
    }
    for i in 0..n
        invariant
            n == lines@.len(),
            all == lines_of(git_branch@),
            all.len() == n,
            forall|j: int| 0 <= j < n ==> #[trigger] lines@[j]@ == all[j],
            marked_branch(all) == marked_branch(all.skip(i as int)),
    {
        proof {
            assert(all.skip(i as int)[0] == lines@[i as int]@);
            assert(all.skip(i as int).drop_first() =~= all.skip(i + 1));
        }
        let t = trim(lines[i].as_str());
        let m = t.as_str().unicode_len();
        if m > 0 && t.as_str().get_char(0) == '*' {
            let b = trim(substring(t.as_str(), 1, m).as_str());
            proof {
                assert(t@.subrange(1, m as int) =~= t@.drop_first());
            }
            return Some(b);
        }
    }
    proof {
        assert(all.skip(n as int) =~= Seq::<Seq<char>>::empty());
    }
    None
}

} // verus!
