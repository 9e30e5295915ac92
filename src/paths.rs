//! Where the workspace and its subdirectories live.
use vstd::prelude::*;
use vstd::string::{StrSliceExecFns, StringExecFns};

use crate::session::{Fault, RepoError};

verus! {

/// Name of the workspace directory inside the home directory.
pub const WORKSPACE_DIR: &'static str = "repo";

/// `base` followed by a separator and `seg`.
pub open spec fn joined(base: Seq<char>, seg: Seq<char>) -> Seq<char> {
    base + seq!['/'] + seg
}

/// The workspace root itself, or the root joined with a relative segment.
pub open spec fn resolved(root: Seq<char>, seg: Option<Seq<char>>) -> Seq<char> {
    match seg {
        Some(s) => joined(root, s),
        None => root,
    }
}

/// A single path component: not empty and free of separators.
pub open spec fn is_name(n: Seq<char>) -> bool {
    n.len() > 0 && forall|i: int| 0 <= i < n.len() ==> n[i] != '/'
}

/// Position `i` of `s` begins a part: it is the first position, or follows
/// a separator.
pub open spec fn starts_part(s: Seq<char>, i: int) -> bool {
    i == 0 || s[i - 1] == '/'
}

/// Position `j` of `s` ends a part: it is the end, or holds a separator.
pub open spec fn ends_part(s: Seq<char>, j: int) -> bool {
    j == s.len() || s[j] == '/'
}

/// What at position `i` keeps `s` from naming a place strictly below a
/// directory: a separator at either end or next to another one (an empty
/// part), or a part that is `.` or `..`.
pub open spec fn breaks_at(s: Seq<char>, i: int) -> bool {
    ||| s[i] == '/' && (i == 0 || i == s.len() - 1 || s[i + 1] == '/')
    ||| s[i] == '.' && starts_part(s, i) && (ends_part(s, i + 1) || (s[i + 1] == '.'
        && ends_part(s, i + 2)))
}

/// A relative path that stays strictly below the directory it is joined to:
/// one or more parts between separators, none empty, `.` or `..`.
pub open spec fn is_rel_path(s: Seq<char>) -> bool {
    s.len() > 0 && forall|i: int| 0 <= i < s.len() ==> !#[trigger] breaks_at(s, i)
}

/// The segment is absent, or a relative path.
pub open spec fn valid_seg(o: Option<Seq<char>>) -> bool {
    match o {
        Some(s) => is_rel_path(s),
        None => true,
    }
}

/// Whether `s` is a relative path that stays below the directory it is
/// joined to.
pub fn is_relative_path(s: &str) -> (r: bool)
    ensures
        r == is_rel_path(s@),
{
    let n: usize = s.unicode_len();
    if n == 0 {
        return false;
    }
    let mut i: usize = 0;
    while i < n
        invariant
            n == s@.len(),
            i <= n,
            forall|j: int| 0 <= j < i ==> !#[trigger] breaks_at(s@, j),
        decreases n - i,
    {
        let c = s.get_char(i);
        let at_start = i == 0 || s.get_char(i - 1) == '/';
        let next_ends = i + 1 == n || s.get_char(i + 1) == '/';
        let bad = if c == '/' {
            i == 0 || i + 1 == n || s.get_char(i + 1) == '/'
        } else if c == '.' && at_start {
            next_ends || (s.get_char(i + 1) == '.' && (i + 2 == n || s.get_char(i + 2) == '/'))
        } else {
            false
        };
        if bad {
            assert(breaks_at(s@, i as int));
            return false;
        }
        i = i + 1;
    }
    true
}

/// Joins `seg` below `base`.
pub fn join(base: &str, seg: &str) -> (r: String)
    ensures
        r@ == joined(base@, seg@),
{
    let mut s = String::from_str(base);
    s.append("/");
    s.append(seg);
    proof {
        reveal_strlit("/");
    }
    s
}

/// The workspace root for a home directory, which the host may not supply.
pub fn workspace_root(home: Option<String>) -> (r: Result<String, RepoError>)
    ensures
        match home {
            Some(h) => r matches Ok(root) && root@ == joined(h@, WORKSPACE_DIR@),
            None => r matches Err(e) && e@ == (
                Fault::HomeDirectoryUnavailable,
                Seq::<char>::empty(),
                Seq::<char>::empty(),
            ),
        },
{
    match home {
        Some(h) => Ok(join(h.as_str(), WORKSPACE_DIR)),
        None => Err(RepoError::bare(Fault::HomeDirectoryUnavailable, String::new())),
    }
}

/// The root, or the root joined with `seg` when one is given.
pub fn resolve(root: &str, seg: Option<&str>) -> (r: String)
    ensures
        r@ == resolved(root@, match seg { Some(s) => Some(s@), None => None }),
{
    match seg {
        Some(s) => join(root, s),
        None => String::from_str(root),
    }
}

} // verus!
