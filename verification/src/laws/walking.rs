//! Laws of the tree walker: a walk in which every directory could be read
//! finds the files below its root that lie outside the reserved directory,
//! all of them and nothing else.

use crate::model::{lemma_ancestor_is_dir, strictly_below, World};
use crate::path::{reserved_name, PathModel};
use crate::walk::{files_in, subdirs_in, Listed};
use vstd::prelude::*;

verus! {

/// Whether `entries` is what reading the directory `dir` gives: each entry
/// names something that stands directly in `dir` and says truly whether it
/// is a directory, and nothing that stands in `dir` is left out.
pub open spec fn lists(w: World, dir: PathModel, entries: Seq<Listed>) -> bool {
    &&& forall|i: int|
        0 <= i < entries.len() ==> w.has(dir.child(#[trigger] entries[i].name))
            && entries[i].is_dir == w.dirs.contains(dir.child(entries[i].name))
    &&& forall|p: PathModel| #[trigger]
        w.has(p) && p.parent() == Some(dir) ==> exists|i: int|
            0 <= i < entries.len() && dir.child(#[trigger] entries[i].name) == p
}

/// Whether `p` lies below `root` on a way that does not pass through the
/// reserved name.
pub open spec fn open_below(p: PathModel, root: PathModel) -> bool {
    strictly_below(p, root) && forall|k: int|
        root.parts.len() <= k < p.parts.len() ==> p.parts[k] != reserved_name()
}

/// Whether `f` is a file that a walk from `root` is to find.
pub open spec fn walkable(w: World, root: PathModel, f: PathModel) -> bool {
    w.files.contains_key(f) && open_below(f, root)
}

/// What holds at every point of a walk from `root` in which each directory
/// could be read: what was found is to be found, what waits are directories
/// of the walk, and every file that is to be found was found or lies below
/// a directory that waits.
pub open spec fn walk_invariant(
    w: World,
    root: PathModel,
    found: Seq<PathModel>,
    pending: Seq<PathModel>,
) -> bool {
    &&& forall|i: int| 0 <= i < found.len() ==> walkable(w, root, #[trigger] found[i])
    &&& forall|i: int|
        0 <= i < pending.len() ==> w.dirs.contains(#[trigger] pending[i]) && (pending[i] == root
            || open_below(pending[i], root))
    &&& forall|f: PathModel| #[trigger]
        walkable(w, root, f) ==> found.contains(f) || exists|i: int|
            0 <= i < pending.len() && strictly_below(f, #[trigger] pending[i])
}

/// Whether `p` is an entry of `dir` that does not carry the reserved name
/// and is, or is not, a directory.
pub open spec fn is_entry(dir: PathModel, entries: Seq<Listed>, p: PathModel, is_dir: bool) -> bool {
    exists|i: int|
        #![trigger entries[i]]
        0 <= i < entries.len() && entries[i].name != reserved_name() && entries[i].is_dir == is_dir
            && p == dir.child(entries[i].name)
}

/// The files that a directory contributes are its entries that are no
/// directories and do not carry the reserved name.
pub proof fn lemma_files_in_members(dir: PathModel, entries: Seq<Listed>)
    ensures
        forall|p: PathModel|
            #![trigger files_in(dir, entries).contains(p)]
            #![trigger is_entry(dir, entries, p, false)]
            files_in(dir, entries).contains(p) <==> is_entry(dir, entries, p, false),
    decreases entries.len(),
{
    if entries.len() > 0 {
        let rest = entries.drop_last();
        let before = files_in(dir, rest);
        let all = files_in(dir, entries);
        let e = entries.last();
        let last = entries.len() - 1;
        lemma_files_in_members(dir, rest);
        assert forall|p: PathModel| all.contains(p) implies is_entry(dir, entries, p, false) by {
            let j = choose|j: int| 0 <= j < all.len() && all[j] == p;
            if j < before.len() {
                assert(before[j] == p);
                assert(before.contains(p));
                let i = choose|i: int|
                    #![trigger rest[i]]
                    0 <= i < rest.len() && rest[i].name != reserved_name() && rest[i].is_dir
                        == false && p == dir.child(rest[i].name);
                assert(entries[i] == rest[i]);
            } else {
                assert(entries[last] == e);
            }
        }
        assert forall|p: PathModel| is_entry(dir, entries, p, false) implies all.contains(p) by {
            let i = choose|i: int|
                #![trigger entries[i]]
                0 <= i < entries.len() && entries[i].name != reserved_name() && entries[i].is_dir
                    == false && p == dir.child(entries[i].name);
            if i < rest.len() {
                assert(rest[i] == entries[i]);
                assert(is_entry(dir, rest, p, false));
                let j = choose|j: int| 0 <= j < before.len() && before[j] == p;
                assert(all[j] == p);
            } else {
                assert(all[all.len() - 1] == p);
            }
        }
    } else {
        assert(files_in(dir, entries) =~= Seq::<PathModel>::empty());
    }
}

/// The directories that a walk descends into from a directory are its
/// entries that are directories and do not carry the reserved name.
pub proof fn lemma_subdirs_in_members(dir: PathModel, entries: Seq<Listed>)
    ensures
        forall|p: PathModel|
            #![trigger subdirs_in(dir, entries).contains(p)]
            #![trigger is_entry(dir, entries, p, true)]
            subdirs_in(dir, entries).contains(p) <==> is_entry(dir, entries, p, true),
    decreases entries.len(),
{
    if entries.len() > 0 {
        let rest = entries.drop_last();
        let before = subdirs_in(dir, rest);
        let all = subdirs_in(dir, entries);
        let e = entries.last();
        let last = entries.len() - 1;
        lemma_subdirs_in_members(dir, rest);
        assert forall|p: PathModel| all.contains(p) implies is_entry(dir, entries, p, true) by {
            let j = choose|j: int| 0 <= j < all.len() && all[j] == p;
            if j < before.len() {
                assert(before[j] == p);
                assert(before.contains(p));
                let i = choose|i: int|
                    #![trigger rest[i]]
                    0 <= i < rest.len() && rest[i].name != reserved_name() && rest[i].is_dir
                        == true && p == dir.child(rest[i].name);
                assert(entries[i] == rest[i]);
            } else {
                assert(entries[last] == e);
            }
        }
        assert forall|p: PathModel| is_entry(dir, entries, p, true) implies all.contains(p) by {
            let i = choose|i: int|
                #![trigger entries[i]]
                0 <= i < entries.len() && entries[i].name != reserved_name() && entries[i].is_dir
                    == true && p == dir.child(entries[i].name);
            if i < rest.len() {
                assert(rest[i] == entries[i]);
                assert(is_entry(dir, rest, p, true));
                let j = choose|j: int| 0 <= j < before.len() && before[j] == p;
                assert(all[j] == p);
            } else {
                assert(all[all.len() - 1] == p);
            }
        }
    } else {
        assert(subdirs_in(dir, entries) =~= Seq::<PathModel>::empty());
    }
}

/// A walk begins in a state that meets its invariant: nothing is found and
/// the root waits, or, where the root is no directory, nothing waits and
/// there is nothing to find.
pub proof fn law_walk_begins(w: World, root: PathModel)
    requires
        w.well_formed(),
    ensures
        walk_invariant(
            w,
            root,
            Seq::empty(),
            if w.dirs.contains(root) {
                seq![root]
            } else {
                Seq::empty()
            },
        ),
{
    let pending = if w.dirs.contains(root) {
        seq![root]
    } else {
        Seq::<PathModel>::empty()
    };
    assert forall|f: PathModel| #[trigger] walkable(w, root, f) implies exists|i: int|
        0 <= i < pending.len() && strictly_below(f, #[trigger] pending[i]) by {
        assert(w.has(f));
        lemma_ancestor_is_dir(w, root, f);
        assert(strictly_below(f, pending[0]));
    }
}

/// Reading the directory that waits last keeps the invariant of a walk: its
/// files are found, its directories wait, and the reserved name is passed
/// over.
pub proof fn law_walk_goes_on(
    w: World,
    root: PathModel,
    found: Seq<PathModel>,
    pending: Seq<PathModel>,
    dir: PathModel,
    entries: Seq<Listed>,
)
    requires
        w.well_formed(),
        walk_invariant(w, root, found, pending.push(dir)),
        lists(w, dir, entries),
    ensures
        walk_invariant(
            w,
            root,
            found + files_in(dir, entries),
            pending + subdirs_in(dir, entries),
        ),
{
    let old_pending = pending.push(dir);
    let new_files = files_in(dir, entries);
    let new_dirs = subdirs_in(dir, entries);
    let found2 = found + new_files;
    let pending2 = pending + new_dirs;
    lemma_files_in_members(dir, entries);
    lemma_subdirs_in_members(dir, entries);
    assert(old_pending[pending.len() as int] == dir);
    assert(w.dirs.contains(dir) && (dir == root || open_below(dir, root)));

    assert forall|i: int| 0 <= i < found2.len() implies walkable(w, root, #[trigger] found2[i]) by {
        if i < found.len() {
            assert(found2[i] == found[i]);
        } else {
            let j = i - found.len();
            assert(found2[i] == new_files[j]);
            assert(new_files.contains(new_files[j]));
            let k = choose|k: int|
                #![trigger entries[k]]
                0 <= k < entries.len() && entries[k].name != reserved_name() && entries[k].is_dir
                    == false && new_files[j] == dir.child(entries[k].name);
            lemma_child_is_open(dir, root, entries[k].name);
        }
    }
    assert forall|i: int| 0 <= i < pending2.len() implies w.dirs.contains(#[trigger] pending2[i])
        && (pending2[i] == root || open_below(pending2[i], root)) by {
        if i < pending.len() {
            assert(pending2[i] == old_pending[i]);
        } else {
            let j = i - pending.len();
            assert(pending2[i] == new_dirs[j]);
            assert(new_dirs.contains(new_dirs[j]));
            let k = choose|k: int|
                #![trigger entries[k]]
                0 <= k < entries.len() && entries[k].name != reserved_name() && entries[k].is_dir
                    == true && new_dirs[j] == dir.child(entries[k].name);
            lemma_child_is_open(dir, root, entries[k].name);
        }
    }
    assert forall|f: PathModel| #[trigger] walkable(w, root, f) implies found2.contains(f)
        || exists|i: int| 0 <= i < pending2.len() && strictly_below(f, #[trigger] pending2[i]) by {
        if found.contains(f) {
            let j = choose|j: int| 0 <= j < found.len() && found[j] == f;
            assert(found2[j] == f);
        } else {
            let i = choose|i: int|
                0 <= i < old_pending.len() && strictly_below(f, #[trigger] old_pending[i]);
            if i < pending.len() {
                assert(pending2[i] == old_pending[i]);
            } else {
                // `f` lies below the directory that was read: the entry on
                // the way to `f` was listed.
                let name = f.parts[dir.parts.len() as int];
                let c = dir.child(name);
                assert(c.parts =~= f.parts.take(dir.parts.len() as int + 1));
                assert(c.parts.drop_last() =~= dir.parts);
                assert(c.parent() == Some(dir));
                assert(w.has(f));
                if f.parts.len() == dir.parts.len() + 1 {
                    assert(c.parts =~= f.parts);
                    assert(c == f);
                } else {
                    assert(strictly_below(f, c));
                    lemma_ancestor_is_dir(w, c, f);
                }
                assert(w.has(c));
                let k = choose|k: int|
                    0 <= k < entries.len() && dir.child(#[trigger] entries[k].name) == c;
                assert(dir.child(entries[k].name).parts.last() == entries[k].name);
                assert(entries[k].name == name);
                assert(name != reserved_name());
                if c == f {
                    assert(!entries[k].is_dir);
                    assert(is_entry(dir, entries, c, false));
                    assert(new_files.contains(c));
                    let j = choose|j: int| 0 <= j < new_files.len() && new_files[j] == c;
                    assert(found2[found.len() + j] == f);
                } else {
                    assert(entries[k].is_dir);
                    assert(is_entry(dir, entries, c, true));
                    assert(new_dirs.contains(c));
                    let j = choose|j: int| 0 <= j < new_dirs.len() && new_dirs[j] == c;
                    assert(pending2[pending.len() + j] == c);
                }
            }
        }
    }
}

/// An entry without the reserved name, in a directory of a walk, lies on an
/// open way below the root.
proof fn lemma_child_is_open(dir: PathModel, root: PathModel, name: Seq<char>)
    requires
        dir == root || open_below(dir, root),
        name != reserved_name(),
    ensures
        open_below(dir.child(name), root),
{
    let c = dir.child(name);
    assert forall|k: int| root.parts.len() <= k < c.parts.len() implies c.parts[k]
        != reserved_name() by {
        if k < dir.parts.len() {
            assert(c.parts[k] == dir.parts[k]);
        }
    }
}

/// When no directory waits, the walk has found every file below the root
/// that lies outside the reserved directory, and nothing else.
pub proof fn law_walk_ends(w: World, root: PathModel, found: Seq<PathModel>)
    requires
        walk_invariant(w, root, found, Seq::empty()),
    ensures
        forall|f: PathModel| found.contains(f) <==> walkable(w, root, f),
{
    assert forall|f: PathModel| found.contains(f) implies walkable(w, root, f) by {
        let i = choose|i: int| 0 <= i < found.len() && found[i] == f;
        assert(walkable(w, root, found[i]));
    }
}

} // verus!
