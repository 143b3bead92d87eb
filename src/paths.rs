//! Project names and the paths they resolve to.
use vstd::prelude::*;
use vstd::string::*;
use crate::error::Error;

verus! {

/// The path separator that project names use.
pub const SEPARATOR: char = '/';

/// The extension of a project file.
pub open spec fn extension() -> Seq<char> {
    seq!['.', 'y', 'm', 'l']
}

/// The index of the last separator in `s` before position `n`, or -1.
pub open spec fn last_sep_before(s: Seq<char>, n: int) -> int
    decreases n,
{
    if n <= 0 {
        -1
    } else if s[n - 1] == SEPARATOR {
        n - 1
    } else {
        last_sep_before(s, n - 1)
    }
}

/// The last separator before `n` stands before `n`, and is a separator.
pub proof fn lemma_last_sep_bounds(s: Seq<char>, n: int)
    requires
        n <= s.len(),
    ensures
        -1 <= last_sep_before(s, n) < if n < 0 { 0 } else { n },
        last_sep_before(s, n) >= 0 ==> s[last_sep_before(s, n)] == SEPARATOR,
    decreases n,
{
    if n > 0 && s[n - 1] != SEPARATOR {
        lemma_last_sep_bounds(s, n - 1);
    }
}

/// The parent part of a relative path: what stands before its last
/// separator, or nothing when it has none.
pub open spec fn parent_of(s: Seq<char>) -> Seq<char> {
    let i = last_sep_before(s, s.len() as int);
    if i < 0 {
        Seq::empty()
    } else {
        s.subrange(0, i)
    }
}

/// A project name that the store accepts: not empty, without a trailing
/// separator, and relative.
pub open spec fn valid_name(name: Seq<char>) -> bool {
    &&& name.len() > 0
    &&& name.last() != SEPARATOR
    &&& name[0] != SEPARATOR
}

/// `e` is the error that an invalid `name` is rejected with: emptiness is
/// reported first, then a trailing separator, then a root component.
pub open spec fn name_error(name: Seq<char>, e: Error) -> bool {
    if name.len() == 0 {
        e is ProjectNameEmpty
    } else if name.last() == SEPARATOR {
        match e {
            Error::ProjectNameTrailingSlash { project_name } => project_name@ == name,
            _ => false,
        }
    } else {
        match e {
            Error::ProjectNameAbsolutePath { project_name } => project_name@ == name,
            _ => false,
        }
    }
}

/// `rel` placed under the directory `base`.
pub open spec fn join_path(base: Seq<char>, rel: Seq<char>) -> Seq<char> {
    if base.len() == 0 || base.last() == SEPARATOR {
        base + rel
    } else {
        base + seq![SEPARATOR] + rel
    }
}

/// The file that holds project `name` under `root`.
pub open spec fn project_file(root: Seq<char>, name: Seq<char>) -> Seq<char> {
    join_path(root, name) + extension()
}

/// The directory under `root` that holds the projects of namespace `ns`.
pub open spec fn namespace_dir(root: Seq<char>, ns: Seq<char>) -> Seq<char> {
    if ns.len() == 0 {
        root
    } else {
        join_path(root, ns)
    }
}

/// Copies `s` into a new `String`.
pub fn to_string(s: &str) -> (r: String)
    ensures
        r@ == s@,
{
    String::from_str(s)
}

/// The position of the last separator in `s`, if any.
pub fn last_separator(s: &str) -> (r: Option<usize>)
    ensures
        match r {
            Some(i) => last_sep_before(s@, s@.len() as int) == i as int && i < s@.len(),
            None => last_sep_before(s@, s@.len() as int) == -1,
        },
{
    let mut n: usize = s.unicode_len();
    while n > 0
        invariant
            n <= s@.len(),
            last_sep_before(s@, s@.len() as int) == last_sep_before(s@, n as int),
        decreases n,
    {
        if s.get_char(n - 1) == SEPARATOR {
            return Some(n - 1);
        }
        n = n - 1;
    }
    None
}

/// Joins `rel` under `base`.
pub fn join(base: &str, rel: &str) -> (r: String)
    ensures
        r@ == join_path(base@, rel@),
{
    let mut out = String::from_str(base);
    let n = base.unicode_len();
    if n > 0 && base.get_char(n - 1) != SEPARATOR {
        let sep = "/";
        proof {
            reveal_strlit("/");
        }
        out.append(sep);
    }
    out.append(rel);
    out
}

/// Checks a project name and returns its namespace, the part before the
/// last separator.
pub fn get_project_namespace(project_name: &str) -> (r: Result<String, Error>)
    ensures
        match r {
            Ok(ns) => valid_name(project_name@) && ns@ == parent_of(project_name@),
            Err(e) => !valid_name(project_name@) && name_error(project_name@, e),
        },
{
    let n = project_name.unicode_len();
    if n == 0 {
        return Err(Error::ProjectNameEmpty {  });
    }
    if project_name.get_char(n - 1) == SEPARATOR {
        return Err(Error::ProjectNameTrailingSlash { project_name: to_string(project_name) });
    }
    if project_name.get_char(0) == SEPARATOR {
        return Err(Error::ProjectNameAbsolutePath { project_name: to_string(project_name) });
    }
    match last_separator(project_name) {
        Some(i) => Ok(to_string(project_name.substring_char(0, i))),
        None => Ok(String::new()),
    }
}

/// The file that holds the project `name` under `root`, once the name is
/// checked.
pub fn project_path(root: &str, name: &str) -> (r: Result<String, Error>)
    ensures
        match r {
            Ok(p) => valid_name(name@) && p@ == project_file(root@, name@),
            Err(e) => !valid_name(name@) && name_error(name@, e),
        },
{
    let _ = get_project_namespace(name)?;
    let mut p = join(root, name);
    let ext = ".yml";
    proof {
        reveal_strlit(".yml");
        assert(ext@ == extension());
    }
    p.append(ext);
    Ok(p)
}

} // verus!
