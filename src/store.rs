//! What editing and removing a project does to the filesystem. The functions
//! here decide; the caller performs the work they describe.
use vstd::prelude::*;
use vstd::string::*;
use crate::error::Error;
use crate::paths::{
    get_project_namespace, join, join_path, last_sep_before, last_separator, lemma_last_sep_bounds, name_error,
    namespace_dir, parent_of, project_file, project_path, to_string, valid_name, SEPARATOR,
};

verus! {

/// What the filesystem holds at a project's path before an operation.
#[derive(Debug, Clone, Copy, PartialEq, Eq, Structural)]
pub enum Existing {
    Missing,
    File,
    Directory,
}

/// The work of one edit: make `directory` (with its ancestors), create the
/// project file at `path` from a skeleton when `create_file`, then open it
/// in the editor when `open_editor`.
#[derive(Debug)]
pub struct EditPlan {
    pub directory: String,
    pub path: String,
    pub create_file: bool,
    pub open_editor: bool,
}

/// The work of one removal: delete the file at `path`, then delete each
/// directory of `cleanup` in order while it is empty, stopping at the first
/// one that is not.
#[derive(Debug)]
pub struct RemovePlan {
    pub path: String,
    pub cleanup: Vec<String>,
}

/// The contents of a list of strings.
pub open spec fn views(v: Seq<String>) -> Seq<Seq<char>> {
    v.map_values(|x: String| x@)
}

proof fn lemma_parent_shorter(ns: Seq<char>)
    ensures
        ns.len() > 0 ==> parent_of(ns).len() < ns.len(),
{
    lemma_last_sep_bounds(ns, ns.len() as int);
}

#[via_fn]
proof fn ancestor_dirs_decreases(root: Seq<char>, ns: Seq<char>) {
    lemma_parent_shorter(ns);
}

/// The directories of namespace `ns` under `root`, its own first, then each
/// parent in turn, ending with its top-level directory.
pub open spec fn ancestor_dirs(root: Seq<char>, ns: Seq<char>) -> Seq<Seq<char>>
    decreases ns.len(),
    via ancestor_dirs_decreases
{
    if ns.len() == 0 {
        Seq::empty()
    } else {
        seq![join_path(root, ns)] + ancestor_dirs(root, parent_of(ns))
    }
}

/// A component of `s` that starts at `i` and is `.` or `..`.
pub open spec fn dot_component_at(s: Seq<char>, i: int) -> bool {
    &&& i == 0 || s[i - 1] == SEPARATOR
    &&& s[i] == '.'
    &&& i + 1 == s.len() || s[i + 1] == SEPARATOR || (s[i + 1] == '.' && (i + 2 == s.len() || s[i
        + 2] == SEPARATOR))
}

/// An empty component of `s` ends at `i`.
pub open spec fn empty_component_at(s: Seq<char>, i: int) -> bool {
    &&& s[i] == SEPARATOR
    &&& i == 0 || i == s.len() - 1 || s[i - 1] == SEPARATOR
}

/// Every component of the relative path `s` names a directory strictly
/// below the one it starts from: none is empty, `.` or `..`.
pub open spec fn plain_path(s: Seq<char>) -> bool {
    forall|i: int| 0 <= i < s.len() ==> !dot_component_at(s, i) && !empty_component_at(s, i)
}

/// The directories that removing project `name` under `root` may clean up.
/// Only a plain namespace has any, so no cleanup ever reaches `root` or
/// leaves it.
pub open spec fn cleanup_dirs(root: Seq<char>, name: Seq<char>) -> Seq<Seq<char>> {
    let ns = parent_of(name);
    if plain_path(ns) {
        ancestor_dirs(root, ns)
    } else {
        Seq::empty()
    }
}

/// Whether every component of `s` is plain.
pub fn is_plain_path(s: &str) -> (r: bool)
    ensures
        r == plain_path(s@),
{
    let n = s.unicode_len();
    let mut i: usize = 0;
    while i < n
        invariant
            n == s@.len(),
            i <= n,
            forall|j: int| 0 <= j < i ==> !dot_component_at(s@, j) && !empty_component_at(s@, j),
        decreases n - i,
    {
        let c = s.get_char(i);
        let starts = i == 0 || s.get_char(i - 1) == SEPARATOR;
        if c == SEPARATOR && (starts || i == n - 1) {
            assert(empty_component_at(s@, i as int));
            return false;
        }
        if starts && c == '.' {
            if i + 1 == n || s.get_char(i + 1) == SEPARATOR {
                assert(dot_component_at(s@, i as int));
                return false;
            }
            if s.get_char(i + 1) == '.' && (i + 2 == n || s.get_char(i + 2) == SEPARATOR) {
                assert(dot_component_at(s@, i as int));
                return false;
            }
        }
        i = i + 1;
    }
    true
}

/// The directories of namespace `ns` under `root`, deepest first.
pub fn ancestor_directories(root: &str, ns: &str) -> (r: Vec<String>)
    ensures
        views(r@) == ancestor_dirs(root@, ns@),
{
    let mut out: Vec<String> = Vec::new();
    let mut cur = to_string(ns);
    while cur.as_str().unicode_len() > 0
        invariant
            views(out@) + ancestor_dirs(root@, cur@) == ancestor_dirs(root@, ns@),
        decreases cur@.len(),
    {
        let ghost before = cur@;
        out.push(join(root, cur.as_str()));
        proof {
            lemma_parent_shorter(before);
        }
        let next = match last_separator(cur.as_str()) {
            Some(i) => to_string(cur.as_str().substring_char(0, i)),
            None => String::new(),
        };
        cur = next;
        proof {
            assert(cur@ == parent_of(before));
            assert(views(out@) + ancestor_dirs(root@, cur@) =~= ancestor_dirs(root@, ns@));
        }
    }
    proof {
        assert(views(out@) =~= views(out@) + ancestor_dirs(root@, cur@));
    }
    out
}

/// Decides what editing project `name` under `root` with `editor` does,
/// given what stands at the project's path. Name errors come first, then an
/// empty editor command, then a directory in the file's place; none of them
/// leaves any work to do.
pub fn plan_edit(root: &str, name: &str, editor: &str, create_only: bool, existing: Existing) -> (r:
    Result<EditPlan, Error>)
    ensures
        !valid_name(name@) ==> r is Err && name_error(name@, r->Err_0),
        name@.len() > 0 && name@.last() == SEPARATOR ==> r matches Err(
            Error::ProjectNameTrailingSlash { .. },
        ),
        name@.len() == 0 ==> r matches Err(Error::ProjectNameEmpty { .. }),
        valid_name(name@) && editor@.len() == 0 ==> r matches Err(Error::EditorEmpty { .. }),
        valid_name(name@) && editor@.len() > 0 && existing == Existing::Directory ==> match r {
            Err(Error::ProjectFileIsADirectory { path }) => path@ == project_file(root@, name@),
            _ => false,
        },
        valid_name(name@) && editor@.len() > 0 && existing != Existing::Directory ==> match r {
            Ok(plan) => {
                &&& plan.path@ == project_file(root@, name@)
                &&& plan.directory@ == namespace_dir(root@, parent_of(name@))
                &&& plan.create_file == (existing == Existing::Missing)
                &&& plan.open_editor == !(create_only && existing == Existing::File)
            },
            Err(_) => false,
        },
{
    let ns = get_project_namespace(name)?;
    if editor.unicode_len() == 0 {
        return Err(Error::EditorEmpty {  });
    }
    let path = project_path(root, name)?;
    if existing == Existing::Directory {
        return Err(Error::ProjectFileIsADirectory { path });
    }
    let directory = if ns.as_str().unicode_len() == 0 {
        to_string(root)
    } else {
        join(root, ns.as_str())
    };
    Ok(
        EditPlan {
            directory,
            path,
            create_file: existing == Existing::Missing,
            open_editor: !(create_only && existing == Existing::File),
        },
    )
}

/// Decides what removing project `name` under `root` does, given what stands
/// at the project's path: only an existing file can be removed.
pub fn plan_remove(root: &str, name: &str, existing: Existing) -> (r: Result<RemovePlan, Error>)
    ensures
        !valid_name(name@) ==> r is Err && name_error(name@, r->Err_0),
        name@.len() > 0 && name@.last() == SEPARATOR ==> r matches Err(
            Error::ProjectNameTrailingSlash { .. },
        ),
        name@.len() == 0 ==> r matches Err(Error::ProjectNameEmpty { .. }),
        valid_name(name@) && existing != Existing::File ==> match r {
            Err(Error::ProjectDoesNotExist { project_name }) => project_name@ == name@,
            _ => false,
        },
        valid_name(name@) && existing == Existing::File ==> match r {
            Ok(plan) => {
                &&& plan.path@ == project_file(root@, name@)
                &&& views(plan.cleanup@) == cleanup_dirs(root@, name@)
            },
            Err(_) => false,
        },
{
    let ns = get_project_namespace(name)?;
    let path = project_path(root, name)?;
    if existing != Existing::File {
        return Err(Error::ProjectDoesNotExist { project_name: to_string(name) });
    }
    let cleanup = if is_plain_path(ns.as_str()) {
        ancestor_directories(root, ns.as_str())
    } else {
        Vec::new()
    };
    proof {
        if !plain_path(ns@) {
            assert(views(cleanup@) =~= Seq::<Seq<char>>::empty());
        }
    }
    Ok(RemovePlan { path, cleanup })
}

/// `dir` is `root` joined with a non-empty plain relative path: a directory
/// strictly below `root`.
pub open spec fn strictly_below(root: Seq<char>, dir: Seq<char>) -> bool {
    exists|p: Seq<char>| p.len() > 0 && plain_path(p) && dir == #[trigger] join_path(root, p)
}

proof fn lemma_parent_plain(s: Seq<char>)
    requires
        plain_path(s),
    ensures
        plain_path(parent_of(s)),
{
    let i = last_sep_before(s, s.len() as int);
    lemma_last_sep_bounds(s, s.len() as int);
    if i >= 0 {
        let t = s.subrange(0, i);
        assert forall|j: int| 0 <= j < t.len() implies !dot_component_at(t, j) && !empty_component_at(
            t,
            j,
        ) by {
            assert(!dot_component_at(s, j) && !empty_component_at(s, j));
            assert(!empty_component_at(s, i));
        }
    }
}

proof fn lemma_ancestors_below(root: Seq<char>, ns: Seq<char>)
    requires
        plain_path(ns),
    ensures
        forall|i: int|
            0 <= i < ancestor_dirs(root, ns).len() ==> strictly_below(
                root,
                #[trigger] ancestor_dirs(root, ns)[i],
            ),
    decreases ns.len(),
{
    if ns.len() > 0 {
        lemma_parent_shorter(ns);
        lemma_parent_plain(ns);
        lemma_ancestors_below(root, parent_of(ns));
        let a = ancestor_dirs(root, ns);
        assert forall|i: int| 0 <= i < a.len() implies strictly_below(root, #[trigger] a[i]) by {
            if i == 0 {
                assert(a[0] == join_path(root, ns));
            } else {
                assert(a[i] == ancestor_dirs(root, parent_of(ns))[i - 1]);
            }
        }
    }
}

/// Removing a project never deletes the root directory nor anything outside
/// it: every directory that a removal may clean up lies strictly below the
/// root, and the first of them is the directory that held the project file.
pub proof fn lemma_cleanup_below_root(root: Seq<char>, name: Seq<char>)
    requires
        valid_name(name),
    ensures
        forall|i: int|
            0 <= i < cleanup_dirs(root, name).len() ==> strictly_below(
                root,
                #[trigger] cleanup_dirs(root, name)[i],
            ),
        cleanup_dirs(root, name).len() > 0 ==> cleanup_dirs(root, name)[0] == namespace_dir(
            root,
            parent_of(name),
        ),
{
    let ns = parent_of(name);
    if plain_path(ns) {
        lemma_ancestors_below(root, ns);
    }
}

} // verus!
