//! Walking the stored projects. The walk is a state machine: the caller
//! asks for the next directory to read, reads it, and hands its entries
//! back. Directories reached through symbolic links are walked too; a
//! directory whose identity (its canonical path) is already among the
//! directories that lead to it is a cycle and is not entered again.
use vstd::prelude::*;
use vstd::string::*;
use vstd::set_lib::lemma_len_subset;
use crate::paths::{extension, join, join_path, to_string};
use crate::store::views;

verus! {

/// One entry of a directory, as the caller found it on disk.
#[derive(Debug)]
pub enum Entry {
    /// A regular file, or a symbolic link to one.
    File { name: String },
    /// A directory, or a symbolic link to one, with the canonical path
    /// that identifies it.
    Directory { name: String, id: String },
    /// Anything else: a broken link, a socket, a device.
    Other {},
}

/// A directory waiting to be read: its path relative to the root and the
/// identities of the directories from the root down to it.
#[derive(Debug)]
pub struct Pending {
    path: String,
    chain: Vec<String>,
}

/// What a queued directory stands for: its relative path and its chain.
pub struct DirView {
    pub path: Seq<char>,
    pub chain: Seq<Seq<char>>,
}

impl View for Pending {
    type V = DirView;

    closed spec fn view(&self) -> DirView {
        DirView { path: self.path@, chain: views(self.chain@) }
    }
}

/// What a walk stands for: the directories still to read (the last one is
/// read next), the one being read, and the names found.
pub struct ListerView {
    pub pending: Seq<DirView>,
    pub current: Option<DirView>,
    pub names: Seq<Seq<char>>,
}

/// The walk over one root: the directories still to read, the one being
/// read, and the project names found so far.
#[derive(Debug)]
pub struct Lister {
    pending: Vec<Pending>,
    current: Option<Pending>,
    names: Vec<String>,
}

impl View for Lister {
    type V = ListerView;

    closed spec fn view(&self) -> ListerView {
        ListerView {
            pending: self.pending@.map_values(|p: Pending| p@),
            current: match self.current {
                Some(p) => Some(p@),
                None => None,
            },
            names: views(self.names@),
        }
    }
}

/// A chain of directory identities that a walk may hold: it starts at the
/// root and never names one directory twice.
pub open spec fn chain_ok(d: DirView) -> bool {
    d.chain.len() > 0 && d.chain.no_duplicates()
}

/// The project name of a file at relative path `p`: the path without the
/// project extension, where it has one after at least one character.
pub open spec fn project_name_of(p: Seq<char>) -> Seq<char> {
    if p.len() > extension().len() && p.subrange(p.len() - extension().len(), p.len() as int)
        == extension() {
        p.subrange(0, p.len() - extension().len())
    } else {
        p
    }
}

/// The project names of the files among `es`, read in the directory at
/// relative path `dir`.
pub open spec fn entry_names(dir: Seq<char>, es: Seq<Entry>) -> Seq<Seq<char>>
    decreases es.len(),
{
    if es.len() == 0 {
        Seq::empty()
    } else {
        entry_names(dir, es.drop_last()) + match es.last() {
            Entry::File { name } => seq![project_name_of(join_path(dir, name@))],
            _ => Seq::empty(),
        }
    }
}

/// The directories among `es` that the walk enters from `d`: those whose
/// identity is not already on `d`'s chain.
pub open spec fn entry_dirs(d: DirView, es: Seq<Entry>) -> Seq<DirView>
    decreases es.len(),
{
    if es.len() == 0 {
        Seq::empty()
    } else {
        entry_dirs(d, es.drop_last()) + match es.last() {
            Entry::Directory { name, id } => if d.chain.contains(id@) {
                Seq::empty()
            } else {
                seq![DirView { path: join_path(d.path, name@), chain: d.chain.push(id@) }]
            },
            _ => Seq::empty(),
        }
    }
}

/// The project name of the file at relative path `p`.
pub fn strip_extension(p: &str) -> (r: String)
    ensures
        r@ == project_name_of(p@),
{
    let n = p.unicode_len();
    let ext = ".yml";
    proof {
        reveal_strlit(".yml");
        assert(ext@ == extension());
    }
    if n > 4 {
        let tail = p.substring_char(n - 4, n);
        let mut same = true;
        let mut i: usize = 0;
        proof {
            assert(tail@.subrange(0, 0) =~= ext@.subrange(0, 0));
        }
        while i < 4
            invariant
                tail@ == p@.subrange(n - 4, n as int),
                ext@ == extension(),
                n == p@.len(),
                n > 4,
                i <= 4,
                same == (tail@.subrange(0, i as int) == ext@.subrange(0, i as int)),
            decreases 4 - i,
        {
            if tail.get_char(i) != ext.get_char(i) {
                same = false;
            }
            proof {
                assert(tail@.subrange(0, i + 1) == tail@.subrange(0, i as int).push(tail@[i as int]));
                assert(ext@.subrange(0, i + 1) == ext@.subrange(0, i as int).push(ext@[i as int]));
                if tail@.subrange(0, i + 1) == ext@.subrange(0, i + 1) {
                    assert(tail@.subrange(0, i + 1)[i as int] == ext@.subrange(0, i + 1)[i as int]);
                    assert(tail@.subrange(0, i as int) =~= tail@.subrange(0, i + 1).drop_last());
                    assert(ext@.subrange(0, i as int) =~= ext@.subrange(0, i + 1).drop_last());
                }
            }
            i = i + 1;
        }
        proof {
            assert(tail@.subrange(0, 4) =~= tail@);
            assert(ext@.subrange(0, 4) =~= ext@);
        }
        if same {
            return to_string(p.substring_char(0, n - 4));
        }
    }
    to_string(p)
}

/// Copies a chain of identities.
fn copy_chain(chain: &Vec<String>) -> (r: Vec<String>)
    ensures
        views(r@) == views(chain@),
{
    let mut out: Vec<String> = Vec::new();
    let mut i: usize = 0;
    while i < chain.len()
        invariant
            i <= chain@.len(),
            views(out@) == views(chain@).subrange(0, i as int),
        decreases chain@.len() - i,
    {
        let ghost before = out@;
        let s = chain[i].clone();
        out.push(s);
        proof {
            assert(s@ == views(chain@)[i as int]);
            assert(views(out@) =~= views(before).push(s@));
            assert(views(out@) =~= views(chain@).subrange(0, i + 1));
        }
        i = i + 1;
    }
    proof {
        assert(views(chain@).subrange(0, i as int) =~= views(chain@));
    }
    out
}

/// Whether `id` is on `chain`.
fn chain_contains(chain: &Vec<String>, id: &String) -> (r: bool)
    ensures
        r == views(chain@).contains(id@),
{
    let mut i: usize = 0;
    while i < chain.len()
        invariant
            i <= chain@.len(),
            forall|j: int| 0 <= j < i ==> chain@[j]@ != id@,
        decreases chain@.len() - i,
    {
        if chain[i] == *id {
            assert(views(chain@)[i as int] == id@);
            return true;
        }
        i = i + 1;
    }
    false
}

/// Every directory that the walk holds has a chain that starts at the root
/// and never names one directory twice.
pub open spec fn walk_ok(v: ListerView) -> bool {
    &&& forall|i: int| 0 <= i < v.pending.len() ==> chain_ok(#[trigger] v.pending[i])
    &&& v.current matches Some(d) ==> chain_ok(d)
}

impl Lister {
    #[verifier::type_invariant]
    closed spec fn inv(&self) -> bool {
        walk_ok(self@)
    }

    fn empty() -> (r: Lister)
        ensures
            r@.pending.len() == 0,
            r@.current is None,
            r@.names.len() == 0,
    {
        Lister { pending: Vec::new(), current: None, names: Vec::new() }
    }

    /// Starts a walk of the root directory whose identity is `root_id`.
    pub fn new(root_id: String) -> (r: Lister)
        ensures
            r@.pending.len() == 1,
            r@.pending[0].path.len() == 0,
            r@.pending[0].chain == seq![root_id@],
            r@.current is None,
            r@.names.len() == 0,
            walk_ok(r@),
    {
        let ghost id = root_id@;
        let mut chain: Vec<String> = Vec::new();
        chain.push(root_id);
        let mut pending: Vec<Pending> = Vec::new();
        pending.push(Pending { path: String::new(), chain });
        proof {
            assert(views(chain@) =~= seq![id]);
        }
        let r = Lister { pending, current: None, names: Vec::new() };
        proof {
            use_type_invariant(&r);
        }
        r
    }

    /// Takes the next directory to read, if any is left, and returns its
    /// path relative to the root. Reading it, the caller hands its entries
    /// to `visit`.
    pub fn next_dir(&mut self) -> (r: Option<String>)
        ensures
            final(self)@.names == old(self)@.names,
            walk_ok(final(self)@),
            old(self)@.pending.len() == 0 ==> r is None && final(self)@.pending == old(
                self,
            )@.pending && final(self)@.current is None,
            old(self)@.pending.len() > 0 ==> match r {
                Some(p) => {
                    &&& p@ == old(self)@.pending.last().path
                    &&& final(self)@.current == Some(old(self)@.pending.last())
                    &&& final(self)@.pending == old(self)@.pending.drop_last()
                },
                None => false,
            },
    {
        let mut l = Lister::empty();
        std::mem::swap(&mut l, self);
        proof {
            use_type_invariant(&l);
        }
        let ghost old_view = l@;
        let Lister { mut pending, current: _, names } = l;
        let r = match pending.pop() {
            Some(d) => {
                let p = to_string(d.path.as_str());
                proof {
                    assert(pending@.map_values(|p: Pending| p@) =~= old_view.pending.drop_last());
                    assert(chain_ok(old_view.pending[old_view.pending.len() - 1]));
                }
                *self = Lister { pending, current: Some(d), names };
                Some(p)
            },
            None => {
                *self = Lister { pending, current: None, names };
                None
            },
        };
        proof {
            use_type_invariant(&*self);
        }
        r
    }

    /// Takes in the entries of the directory that `next_dir` handed out: each
    /// file is a project, named by its path relative to the root; each
    /// directory whose identity is not on the current chain is queued.
    pub fn visit(&mut self, entries: &Vec<Entry>)
        ensures
            walk_ok(final(self)@),
            match old(self)@.current {
                None => final(self)@ == old(self)@,
                Some(d) => {
                    &&& final(self)@.current is None
                    &&& final(self)@.names == old(self)@.names + entry_names(d.path, entries@)
                    &&& final(self)@.pending == old(self)@.pending + entry_dirs(d, entries@)
                },
            },
    {
        proof {
            use_type_invariant(&*self);
        }
        if self.current.is_none() {
            return;
        }
        let mut l = Lister::empty();
        std::mem::swap(&mut l, self);
        proof {
            use_type_invariant(&l);
        }
        let ghost old_view = l@;
        let Lister { mut pending, current, mut names } = l;
        proof {
            assert forall|k: int| 0 <= k < pending@.len() implies chain_ok(
                #[trigger] pending@[k]@,
            ) by {
                assert(pending@[k]@ == old_view.pending[k]);
            }
            assert(entries@.take(0) =~= Seq::<Entry>::empty());
            assert(views(names@) =~= old_view.names + Seq::empty());
            assert(pending@.map_values(|p: Pending| p@) =~= old_view.pending + Seq::empty());
        }
        let d = match current {
            Some(d) => d,
            None => {
                *self = Lister { pending, current: None, names };
                return;
            },
        };
        let ghost dv = d@;
        let mut i: usize = 0;
        while i < entries.len()
            invariant
                i <= entries@.len(),
                dv == d@,
                chain_ok(dv),
                views(names@) == old_view.names + entry_names(dv.path, entries@.take(i as int)),
                pending@.map_values(|p: Pending| p@) == old_view.pending + entry_dirs(
                    dv,
                    entries@.take(i as int),
                ),
                forall|k: int|
                    0 <= k < pending@.len() ==> chain_ok(#[trigger] pending@[k]@),
            decreases entries@.len() - i,
        {
            let ghost names_before = names@;
            let ghost pending_before = pending@;
            proof {
                assert(entries@.take(i + 1).drop_last() =~= entries@.take(i as int));
                assert(entries@.take(i + 1).last() == entries@[i as int]);
            }
            match &entries[i] {
                Entry::File { name } => {
                    let rel = join(d.path.as_str(), name.as_str());
                    names.push(strip_extension(rel.as_str()));
                    proof {
                        assert(views(names@) =~= views(names_before) + seq![
                            project_name_of(join_path(dv.path, name@)),
                        ]);
                        assert(entry_dirs(dv, entries@.take(i + 1)) =~= entry_dirs(
                            dv,
                            entries@.take(i as int),
                        ) + Seq::empty());
                    }
                },
                Entry::Directory { name, id } => {
                    proof {
                        assert(entry_names(dv.path, entries@.take(i + 1)) =~= entry_names(
                            dv.path,
                            entries@.take(i as int),
                        ) + Seq::empty());
                    }
                    if !chain_contains(&d.chain, id) {
                        let mut chain = copy_chain(&d.chain);
                        let ghost chain_before = chain@;
                        chain.push(id.clone());
                        let q = Pending { path: join(d.path.as_str(), name.as_str()), chain };
                        pending.push(q);
                        proof {
                            assert(views(chain@) =~= views(chain_before).push(id@));
                            assert(q@.chain == dv.chain.push(id@));
                            assert(chain_ok(q@));
                            assert(pending@.map_values(|p: Pending| p@) =~= pending_before.map_values(
                                |p: Pending| p@,
                            ).push(q@));
                        }
                    } else {
                        proof {
                            assert(entry_dirs(dv, entries@.take(i + 1)) =~= entry_dirs(
                                dv,
                                entries@.take(i as int),
                            ) + Seq::empty());
                        }
                    }
                },
                Entry::Other {  } => {
                    proof {
                        assert(entry_names(dv.path, entries@.take(i + 1)) =~= entry_names(
                            dv.path,
                            entries@.take(i as int),
                        ) + Seq::empty());
                        assert(entry_dirs(dv, entries@.take(i + 1)) =~= entry_dirs(
                            dv,
                            entries@.take(i as int),
                        ) + Seq::empty());
                    }
                },
            }
            i = i + 1;
        }
        proof {
            assert(entries@.take(i as int) =~= entries@);
        }
        *self = Lister { pending, current: None, names };
        proof {
            use_type_invariant(&*self);
        }
    }

    /// The project names that the walk has found.
    pub fn into_names(self) -> (r: Vec<String>)
        ensures
            views(r@) == self@.names,
    {
        let Lister { pending: _, current: _, names } = self;
        names
    }
}

/// A walk terminates even among symbolic-link cycles: no directory that it
/// queues lies deeper than the number of distinct directory identities that
/// its chain draws from, since a chain never names one identity twice.
pub proof fn lemma_walk_depth_bounded(v: ListerView, ids: Set<Seq<char>>)
    requires
        walk_ok(v),
        ids.finite(),
        forall|i: int| 0 <= i < v.pending.len() ==> (#[trigger] v.pending[i]).chain.to_set().subset_of(
            ids,
        ),
    ensures
        forall|i: int| 0 <= i < v.pending.len() ==> (#[trigger] v.pending[i]).chain.len() <= ids.len(),
{
    assert forall|i: int| 0 <= i < v.pending.len() implies (#[trigger] v.pending[i]).chain.len()
        <= ids.len() by {
        let c = v.pending[i].chain;
        assert(chain_ok(v.pending[i]));
        c.unique_seq_to_set();
        lemma_len_subset(c.to_set(), ids);
    }
}

/// How many of `es` are files.
pub open spec fn file_count(es: Seq<Entry>) -> nat
    decreases es.len(),
{
    if es.len() == 0 {
        0
    } else {
        file_count(es.drop_last()) + if es.last() is File {
            1nat
        } else {
            0nat
        }
    }
}

/// Each file of a directory yields exactly one project name, whatever the
/// order of the entries: the names that a visit adds are as many as the
/// files among them, and the one of the file `name` at position `i` is its
/// path relative to the root without the extension.
pub proof fn lemma_one_name_per_file(dir: Seq<char>, es: Seq<Entry>)
    ensures
        entry_names(dir, es).len() == file_count(es),
        forall|i: int|
            #![trigger es[i]]
            0 <= i < es.len() && es[i] is File ==> entry_names(dir, es)[file_count(es.take(i)) as int]
                == project_name_of(join_path(dir, es[i]->File_name@)),
    decreases es.len(),
{
    if es.len() > 0 {
        let init = es.drop_last();
        lemma_one_name_per_file(dir, init);
        assert forall|i: int|
            #![trigger es[i]]
            0 <= i < es.len() && es[i] is File implies entry_names(dir, es)[file_count(
                es.take(i),
            ) as int] == project_name_of(join_path(dir, es[i]->File_name@)) by {
            if i < es.len() - 1 {
                assert(es.take(i) =~= init.take(i));
                assert(init[i] == es[i]);
                lemma_count_prefix(init, i);
            } else {
                assert(es.take(i) =~= init);
            }
        }
    }
}

proof fn lemma_count_prefix(es: Seq<Entry>, i: int)
    requires
        0 <= i < es.len(),
        es[i] is File,
    ensures
        file_count(es.take(i)) < file_count(es),
    decreases es.len(),
{
    if i < es.len() - 1 {
        assert(es.drop_last().take(i) =~= es.take(i));
        lemma_count_prefix(es.drop_last(), i);
    } else {
        assert(es.drop_last() =~= es.take(i));
    }
}

} // verus!
