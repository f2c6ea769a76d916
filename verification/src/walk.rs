//! The tree walker: every regular file below a root, except what lies under
//! the reserved directory.
//!
//! Reading a directory is the caller's part. `recursive_list` decides what
//! the entries of one directory amount to, and `Walk` keeps the directories
//! that are still to be read, so that a walk is a loop of "ask for the next
//! directory, read it, record what it holds".

use crate::path::{is_reserved, reserved_name, FilePath, PathModel};
use crate::seqs::views;
use vstd::prelude::*;

verus! {

/// One entry of a directory, in contracts.
pub struct Listed {
    pub name: Seq<char>,
    pub is_dir: bool,
}

/// One entry of a directory: its name, and whether it is a directory itself.
#[derive(Debug)]
pub struct DirEntry {
    pub name: String,
    pub is_dir: bool,
}

impl View for DirEntry {
    type V = Listed;

    open spec fn view(&self) -> Listed {
        Listed { name: self.name@, is_dir: self.is_dir }
    }
}

/// The files that stand directly in `dir`, in the order of its entries. An
/// entry with the reserved name is passed over, whatever it is.
pub open spec fn files_in(dir: PathModel, entries: Seq<Listed>) -> Seq<PathModel>
    decreases entries.len(),
{
    if entries.len() == 0 {
        Seq::empty()
    } else {
        let before = files_in(dir, entries.drop_last());
        let e = entries.last();
        if e.name != reserved_name() && !e.is_dir {
            before.push(dir.child(e.name))
        } else {
            before
        }
    }
}

/// The directories directly in `dir` that a walk descends into, in the order
/// of its entries: all but the reserved one.
pub open spec fn subdirs_in(dir: PathModel, entries: Seq<Listed>) -> Seq<PathModel>
    decreases entries.len(),
{
    if entries.len() == 0 {
        Seq::empty()
    } else {
        let before = subdirs_in(dir, entries.drop_last());
        let e = entries.last();
        if e.name != reserved_name() && e.is_dir {
            before.push(dir.child(e.name))
        } else {
            before
        }
    }
}

/// What one directory holds for a walk.
#[derive(Debug)]
pub struct Level {
    /// The files directly in the directory.
    pub files: Vec<FilePath>,
    /// The directories to descend into.
    pub subdirs: Vec<FilePath>,
}

/// Sorts the entries of one directory into the files it contributes and the
/// directories to descend into, and drops the reserved name.
pub fn recursive_list(dir: &FilePath, entries: &Vec<DirEntry>) -> (level: Level)
    ensures
        views(level.files@) == files_in(dir@, views(entries@)),
        views(level.subdirs@) == subdirs_in(dir@, views(entries@)),
{
    let mut files: Vec<FilePath> = Vec::new();
    let mut subdirs: Vec<FilePath> = Vec::new();
    let n = entries.len();
    let mut i: usize = 0;
    let ghost all = views(entries@);
    assert(all.take(0) =~= Seq::<Listed>::empty());
    assert(views(files@) =~= Seq::<PathModel>::empty());
    assert(views(subdirs@) =~= Seq::<PathModel>::empty());
    while i < n
        invariant
            i <= n,
            n == entries.len(),
            all == views(entries@),
            views(files@) == files_in(dir@, all.take(i as int)),
            views(subdirs@) == subdirs_in(dir@, all.take(i as int)),
        decreases n - i,
    {
        let ghost files_before = views(files@);
        let ghost subdirs_before = views(subdirs@);
        proof {
            assert(all.take(i + 1).drop_last() =~= all.take(i as int));
            assert(all.take(i + 1).last() == entries@[i as int]@);
        }
        if !is_reserved(&entries[i].name) {
            let path = dir.child(&entries[i].name);
            if entries[i].is_dir {
                subdirs.push(path);
                assert(views(subdirs@) =~= subdirs_before.push(subdirs@[subdirs@.len() - 1]@));
            } else {
                files.push(path);
                assert(views(files@) =~= files_before.push(files@[files@.len() - 1]@));
            }
        }
        i += 1;
    }
    assert(all.take(n as int) =~= all);
    Level { files, subdirs }
}

/// Whatever a directory contributes lies directly in it and does not carry
/// the reserved name: neither the reserved directory nor anything below it
/// is ever reached.
pub proof fn law_reserved_is_pruned(dir: PathModel, entries: Seq<Listed>)
    ensures
        forall|i: int|
            0 <= i < files_in(dir, entries).len() ==> {
                let p = #[trigger] files_in(dir, entries)[i];
                p.parent() == Some(dir) && p.parts.last() != reserved_name()
            },
        forall|i: int|
            0 <= i < subdirs_in(dir, entries).len() ==> {
                let p = #[trigger] subdirs_in(dir, entries)[i];
                p.parent() == Some(dir) && p.parts.last() != reserved_name()
            },
    decreases entries.len(),
{
    if entries.len() > 0 {
        law_reserved_is_pruned(dir, entries.drop_last());
        let e = entries.last();
        let child = dir.child(e.name);
        assert(child.parts.drop_last() =~= dir.parts);
    }
}

/// A directory that could not be read, with the system's words.
#[derive(Debug)]
pub struct Skipped {
    pub dir: FilePath,
    pub reason: String,
}

/// A walk under way: the files found so far, the directories still to be
/// read, and the directories that were passed over because they could not
/// be read.
#[derive(Debug)]
pub struct Walk {
    pending: Vec<FilePath>,
    files: Vec<FilePath>,
    skipped: Vec<Skipped>,
}

impl Walk {
    /// The files found so far.
    pub closed spec fn found(&self) -> Seq<PathModel> {
        views(self.files@)
    }

    /// The directories still to be read; the last one is read next.
    pub closed spec fn pending(&self) -> Seq<PathModel> {
        views(self.pending@)
    }

    /// The directories that were passed over.
    pub closed spec fn passed_over(&self) -> Seq<PathModel> {
        Seq::new(self.skipped@.len(), |i: int| self.skipped@[i].dir@)
    }

    /// Starts a walk at `root`. A root that is no directory holds nothing:
    /// the walk is over before it begins.
    pub fn new(root: FilePath, root_is_dir: bool) -> (walk: Walk)
        ensures
            walk.found() == Seq::<PathModel>::empty(),
            walk.passed_over() == Seq::<PathModel>::empty(),
            walk.pending() == if root_is_dir {
                seq![root@]
            } else {
                Seq::<PathModel>::empty()
            },
    {
        let mut pending: Vec<FilePath> = Vec::new();
        if root_is_dir {
            pending.push(root);
        }
        let walk = Walk { pending, files: Vec::new(), skipped: Vec::new() };
        assert(walk.found() =~= Seq::<PathModel>::empty());
        assert(walk.passed_over() =~= Seq::<PathModel>::empty());
        assert(walk.pending() =~= if root_is_dir {
            seq![root@]
        } else {
            Seq::<PathModel>::empty()
        });
        walk
    }

    /// Takes the next directory to read, or `None` when the walk is over.
    pub fn next_dir(&mut self) -> (next: Option<FilePath>)
        ensures
            final(self).found() == old(self).found(),
            final(self).passed_over() == old(self).passed_over(),
            match next {
                Some(dir) => old(self).pending() == final(self).pending().push(dir@),
                None => old(self).pending().len() == 0 && final(self).pending().len() == 0,
            },
    {
        let ghost before = self.pending();
        let next = self.pending.pop();
        proof {
            if next is Some {
                assert(before =~= self.pending().push(next->Some_0@));
            }
        }
        next
    }

    /// Records what the directory `dir` holds: its files are found, and its
    /// directories wait to be read. The reserved name is dropped.
    pub fn record(&mut self, dir: &FilePath, entries: &Vec<DirEntry>)
        ensures
            final(self).found() == old(self).found() + files_in(dir@, views(entries@)),
            final(self).pending() == old(self).pending() + subdirs_in(dir@, views(entries@)),
            final(self).passed_over() == old(self).passed_over(),
    {
        let level = recursive_list(dir, entries);
        let ghost found_before = self.found();
        let ghost pending_before = self.pending();
        let mut files = level.files;
        let mut subdirs = level.subdirs;
        let ghost new_files = views(files@);
        let ghost new_subdirs = views(subdirs@);
        self.files.append(&mut files);
        self.pending.append(&mut subdirs);
        assert(self.found() =~= found_before + new_files);
        assert(self.pending() =~= pending_before + new_subdirs);
    }

    /// Passes over a directory that could not be read. The walk goes on with
    /// the rest: one unreadable directory does not fail it.
    pub fn skip(&mut self, dir: FilePath, reason: String)
        ensures
            final(self).found() == old(self).found(),
            final(self).pending() == old(self).pending(),
            final(self).passed_over() == old(self).passed_over().push(dir@),
    {
        self.skipped.push(Skipped { dir, reason });
        assert(self.passed_over() =~= old(self).passed_over().push(dir@));
    }

    /// Whether every directory has been read.
    pub fn is_done(&self) -> (done: bool)
        ensures
            done == (self.pending().len() == 0),
    {
        self.pending.len() == 0
    }

    /// Ends the walk and hands out the files found and the directories that
    /// were passed over.
    pub fn finish(self) -> (result: (Vec<FilePath>, Vec<Skipped>))
        ensures
            views(result.0@) == self.found(),
            Seq::new(result.1@.len(), |i: int| result.1@[i].dir@) == self.passed_over(),
    {
        (self.files, self.skipped)
    }
}

} // verus!
