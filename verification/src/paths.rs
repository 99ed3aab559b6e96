//! Path arithmetic over plain strings.
//!
//! Local paths and remote paths are treated as character sequences with `/`
//! as the separator.  Everything here is specified exactly: joining, parent
//! and file-name extraction, slash normalization, component-aware prefix
//! tests, and relative-path extraction.

use vstd::prelude::*;

verus! {

use crate::error::Error;
use crate::strutil::{
    find_last_char,
    last_index_of_char,
    lemma_last_index_of_char,
    push_char,
    spec_starts_with,
    starts_with,
    str_eq,
};

/// `s` with every trailing `/` removed.
pub open spec fn spec_trim_end_slashes(s: Seq<char>) -> Seq<char>
    decreases s.len(),
{
    if s.len() > 0 && s.last() == '/' {
        spec_trim_end_slashes(s.drop_last())
    } else {
        s
    }
}

/// `s` with every leading `/` removed.
pub open spec fn spec_trim_start_slashes(s: Seq<char>) -> Seq<char>
    decreases s.len(),
{
    if s.len() > 0 && s[0] == '/' {
        spec_trim_start_slashes(s.subrange(1, s.len() as int))
    } else {
        s
    }
}

/// `s` with each (leftmost, non-overlapping) `//` pair collapsed to `/`.
pub open spec fn spec_collapse_slashes(s: Seq<char>) -> Seq<char>
    decreases s.len(),
{
    if s.len() >= 2 && s[0] == '/' && s[1] == '/' {
        seq!['/'] + spec_collapse_slashes(s.subrange(2, s.len() as int))
    } else if s.len() >= 1 {
        seq![s[0]] + spec_collapse_slashes(s.subrange(1, s.len() as int))
    } else {
        s
    }
}

/// Remove every trailing `/`.
pub fn trim_end_slashes(s: &str) -> (r: String)
    ensures
        r@ == spec_trim_end_slashes(s@),
{
    let n = s.unicode_len();
    proof {
        assert(s@.subrange(0, n as int) =~= s@);
    }
    let mut end = n;
    while end > 0 && s.get_char(end - 1) == '/'
        invariant
            end <= n,
            n == s@.len(),
            spec_trim_end_slashes(s@.subrange(0, end as int)) == spec_trim_end_slashes(s@),
        decreases end,
    {
        proof {
            let t = s@.subrange(0, end as int);
            assert(t.last() == s@[end - 1]);
            assert(t.drop_last() =~= s@.subrange(0, end - 1));
        }
        end = end - 1;
    }
    proof {
        let t = s@.subrange(0, end as int);
        if end > 0 {
            assert(t.last() == s@[end - 1]);
        }
        assert(spec_trim_end_slashes(t) == t);
    }
    s.substring_char(0, end).to_owned()
}

/// Remove every leading `/`.
pub fn trim_start_slashes(s: &str) -> (r: String)
    ensures
        r@ == spec_trim_start_slashes(s@),
{
    let n = s.unicode_len();
    proof {
        assert(s@.subrange(0, n as int) =~= s@);
    }
    let mut start: usize = 0;
    while start < n && s.get_char(start) == '/'
        invariant
            start <= n,
            n == s@.len(),
            spec_trim_start_slashes(s@.subrange(start as int, n as int)) == spec_trim_start_slashes(
                s@,
            ),
        decreases n - start,
    {
        proof {
            let t = s@.subrange(start as int, n as int);
            assert(t[0] == s@[start as int]);
            assert(t.subrange(1, t.len() as int) =~= s@.subrange(start + 1, n as int));
        }
        start = start + 1;
    }
    proof {
        let t = s@.subrange(start as int, n as int);
        if start < n {
            assert(t[0] == s@[start as int]);
        }
        assert(spec_trim_start_slashes(t) == t);
    }
    s.substring_char(start, n).to_owned()
}

/// Collapse each `//` pair to `/`, scanning left to right.
pub fn collapse_slashes(s: &str) -> (r: String)
    ensures
        r@ == spec_collapse_slashes(s@),
{
    let n = s.unicode_len();
    let mut out = String::new();
    proof {
        assert(s@.subrange(0, n as int) =~= s@);
        assert(out@ + spec_collapse_slashes(s@) =~= spec_collapse_slashes(s@));
    }
    let mut i: usize = 0;
    while i < n
        invariant
            i <= n,
            n == s@.len(),
            out@ + spec_collapse_slashes(s@.subrange(i as int, n as int)) == spec_collapse_slashes(
                s@,
            ),
        decreases n - i,
    {
        let ghost pre = out@;
        let ghost t = s@.subrange(i as int, n as int);
        let c = s.get_char(i);
        if i + 1 < n && c == '/' && s.get_char(i + 1) == '/' {
            push_char(&mut out, '/');
            proof {
                assert(t[0] == '/' && t[1] == '/');
                assert(t.subrange(2, t.len() as int) =~= s@.subrange(i + 2, n as int));
                assert(out@ + spec_collapse_slashes(s@.subrange(i + 2, n as int))
                    =~= pre + spec_collapse_slashes(t));
            }
            i = i + 2;
        } else {
            push_char(&mut out, c);
            proof {
                assert(t[0] == c);
                assert(t.subrange(1, t.len() as int) =~= s@.subrange(i + 1, n as int));
                assert(!(t.len() >= 2 && t[0] == '/' && t[1] == '/'));
                assert(out@ + spec_collapse_slashes(s@.subrange(i + 1, n as int))
                    =~= pre + spec_collapse_slashes(t));
            }
            i = i + 1;
        }
    }
    proof {
        let t = s@.subrange(n as int, n as int);
        assert(t =~= Seq::<char>::empty());
        assert(out@ + spec_collapse_slashes(t) =~= out@);
    }
    out
}

/// Path utilities for remote (POSIX-style) paths.
#[derive(Debug, Clone, Copy)]
pub struct PathUtils;

/// What `PathUtils::join` yields: trailing slashes of the base and leading
/// slashes of the name are dropped, then the two halves meet at one `/`.
pub open spec fn spec_join(base: Seq<char>, name: Seq<char>) -> Seq<char> {
    let b = spec_trim_end_slashes(base);
    let nm = spec_trim_start_slashes(name);
    if b.len() == 0 {
        seq!['/'] + nm
    } else {
        b + seq!['/'] + nm
    }
}

/// What `PathUtils::parent` yields: `None` for `/` and the empty path, the
/// text before the last `/` otherwise (`/` itself when the last slash leads,
/// the empty string when the path has no slash).
pub open spec fn spec_parent(s: Seq<char>) -> Option<Seq<char>> {
    if s == "/"@ || s.len() == 0 {
        None
    } else {
        let i = last_index_of_char(s, '/');
        if i == -1 {
            Some(Seq::<char>::empty())
        } else if i == 0 {
            Some(seq!['/'])
        } else {
            Some(s.subrange(0, i))
        }
    }
}

/// What `PathUtils::filename` yields: the text after the last `/`, or the
/// whole path when that text is empty or there is no slash.
pub open spec fn spec_filename(s: Seq<char>) -> Seq<char> {
    let i = last_index_of_char(s, '/');
    if i == -1 || i == s.len() - 1 {
        s
    } else {
        s.subrange(i + 1, s.len() as int)
    }
}

/// What `PathUtils::normalize` yields: leading slashes dropped, `//` pairs
/// collapsed, and exactly one `/` put back in front (`/` for an all-slash or
/// empty path).
pub open spec fn spec_normalize(s: Seq<char>) -> Seq<char> {
    let p = spec_trim_start_slashes(s);
    if p.len() == 0 {
        seq!['/']
    } else {
        seq!['/'] + spec_collapse_slashes(p)
    }
}

impl PathUtils {
    /// Join a remote base path and a name.
    pub fn join(base: &str, name: &str) -> (r: String)
        ensures
            r@ == spec_join(base@, name@),
    {
        proof {
            reveal_strlit("/");
            assert("/"@ =~= seq!['/']);
        }
        let b = trim_end_slashes(base);
        let nm = trim_start_slashes(name);
        if b.unicode_len() == 0 {
            let mut r = "/".to_owned();
            r.append(nm.as_str());
            proof {
                assert(r@ =~= spec_join(base@, name@));
            }
            r
        } else {
            let mut r = b;
            r.append("/");
            r.append(nm.as_str());
            proof {
                assert(r@ =~= spec_join(base@, name@));
            }
            r
        }
    }

    /// The parent of a remote path, `None` at the root.
    pub fn parent(path: &str) -> (r: Option<String>)
        ensures
            match r {
                Some(p) => spec_parent(path@) == Some(p@),
                None => spec_parent(path@) is None,
            },
    {
        if str_eq(path, "/") || path.unicode_len() == 0 {
            return None;
        }
        proof {
            reveal_strlit("/");
            assert("/"@ =~= seq!['/']);
        }
        match find_last_char(path, '/') {
            None => Some(String::new()),
            Some(i) => {
                if i == 0 {
                    Some("/".to_owned())
                } else {
                    Some(path.substring_char(0, i).to_owned())
                }
            },
        }
    }

    /// The file name of a remote path: what follows the last `/`, or the
    /// whole path when nothing does.
    pub fn filename(path: &str) -> (r: String)
        ensures
            r@ == spec_filename(path@),
    {
        let n = path.unicode_len();
        match find_last_char(path, '/') {
            None => path.to_owned(),
            Some(i) => {
                if i + 1 == n {
                    path.to_owned()
                } else {
                    path.substring_char(i + 1, n).to_owned()
                }
            },
        }
    }

    /// Normalize a remote path to a single leading `/` and no `//` pairs.
    pub fn normalize(path: &str) -> (r: String)
        ensures
            r@ == spec_normalize(path@),
    {
        proof {
            reveal_strlit("/");
            assert("/"@ =~= seq!['/']);
        }
        let p = trim_start_slashes(path);
        if p.unicode_len() == 0 {
            "/".to_owned()
        } else {
            let mut r = "/".to_owned();
            let collapsed = collapse_slashes(p.as_str());
            r.append(collapsed.as_str());
            proof {
                assert(r@ =~= spec_normalize(path@));
            }
            r
        }
    }
}

/// Is `base` a component-wise prefix of `full`?  True when `full` starts
/// with `base` and the match ends at a component boundary.
pub open spec fn spec_is_path_prefix(base: Seq<char>, full: Seq<char>) -> bool {
    spec_starts_with(full, base) && (full.len() == base.len() || base.len() == 0 || base.last()
        == '/' || full[base.len() as int] == '/')
}

/// What `get_relative_path` yields on a component-wise prefix: the remainder
/// of `full` past `base`, with the separating `/` dropped.
pub open spec fn spec_relative_path(base: Seq<char>, full: Seq<char>) -> Seq<char> {
    if full.len() == base.len() {
        Seq::<char>::empty()
    } else if base.len() > 0 && base.last() == '/' {
        full.subrange(base.len() as int, full.len() as int)
    } else if base.len() < full.len() && full[base.len() as int] == '/' {
        full.subrange(base.len() as int + 1, full.len() as int)
    } else {
        full.subrange(base.len() as int, full.len() as int)
    }
}

/// Test whether `base` is a component-wise prefix of `full`.
pub fn is_path_prefix(base: &str, full: &str) -> (r: bool)
    ensures
        r == spec_is_path_prefix(base@, full@),
{
    if !starts_with(full, base) {
        return false;
    }
    let bn = base.unicode_len();
    let fln = full.unicode_len();
    if fln == bn || bn == 0 {
        return true;
    }
    if base.get_char(bn - 1) == '/' {
        return true;
    }
    if full.get_char(bn) == '/' {
        return true;
    }
    false
}

/// The path of `full` relative to `base`.  Succeeds exactly when `base` is a
/// component-wise prefix of `full`.
pub fn get_relative_path(base: &str, full: &str) -> (r: Result<String, Error>)
    ensures
        match r {
            Ok(rel) => spec_is_path_prefix(base@, full@) && rel@ == spec_relative_path(base@, full@),
            Err(e) => !spec_is_path_prefix(base@, full@) && (e matches Error::InvalidPath(m)
                && m@ == "Path not within base"@),
        },
{
    if !is_path_prefix(base, full) {
        return Err(Error::InvalidPath("Path not within base".to_owned()));
    }
    let bn = base.unicode_len();
    let fln = full.unicode_len();
    if fln == bn {
        Ok(String::new())
    } else if bn > 0 && base.get_char(bn - 1) == '/' {
        Ok(full.substring_char(bn, fln).to_owned())
    } else if full.get_char(bn) == '/' {
        Ok(full.substring_char(bn + 1, fln).to_owned())
    } else {
        Ok(full.substring_char(bn, fln).to_owned())
    }
}

} // verus!
