//! Laws of `remove`: what untracking a file deletes, and what it leaves.

use crate::action::Step;
use crate::model::{lemma_occupied, names_a_file, strictly_below, World};
use crate::ops::{prune_from, removal_steps};
use crate::path::PathModel;
use vstd::prelude::*;

verus! {

/// What pruning from `dir` upward leaves behind in a well-formed world.
proof fn lemma_prune(w: World, root: PathModel, dir: Option<PathModel>)
    requires
        w.well_formed(),
        dir matches Some(x) ==> w.dirs.contains(x),
    ensures
        ({
            let after = w.carried_out(prune_from(root, dir));
            &&& after.files == w.files
            &&& after.well_formed()
            &&& after.dirs.subset_of(w.dirs)
            &&& w.dirs.contains(root) ==> after.dirs.contains(root)
            &&& forall|d: PathModel|
                w.dirs.contains(d) && !after.dirs.contains(d) ==> dir is Some && (d == dir->Some_0
                    || strictly_below(dir->Some_0, d))
            &&& forall|d: PathModel, f: PathModel|
                w.dirs.contains(d) && w.files.contains_key(f) && strictly_below(f, d)
                    ==> after.dirs.contains(d)
            &&& forall|a: PathModel|
                dir is Some && (a == dir->Some_0 || strictly_below(dir->Some_0, a))
                    && strictly_below(a, root) && after.dirs.contains(a) ==> !after.holds_nothing(
                    a,
                )
        }),
    decreases
        (match dir {
            Some(d) => d.parts.len() + 1,
            None => 0,
        }),
{
    let plan = prune_from(root, dir);
    let after = w.carried_out(plan);
    match dir {
        None => {},
        Some(x) => {
            if x == root {
            } else {
                let step = Step::RemoveDirIfEmpty(x);
                let rest = prune_from(root, x.parent());
                assert(plan =~= seq![step] + rest);
                assert(plan[0] == step);
                assert(plan.drop_first() =~= rest);
                if !w.admits(step) {
                    assert(after == w);
                    assert forall|a: PathModel|
                        (a == x || strictly_below(x, a)) && strictly_below(a, root)
                            && after.dirs.contains(a) implies !after.holds_nothing(a) by {
                        if a != x {
                            assert(w.has(x));
                            lemma_occupied(w, a, x);
                        }
                    }
                } else {
                    let w1 = w.after(step);
                    assert(after == w1.carried_out(rest));
                    assert(w1.well_formed()) by {
                        assert forall|p: PathModel| #[trigger]
                            w1.has(p) && p.parts.len() > 0 implies w1.dirs.contains(
                            p.parent()->Some_0,
                        ) by {
                            assert(w.has(p));
                        }
                    }
                    if x.parts.len() > 0 {
                        assert(w.has(x));
                        assert(w1.dirs.contains(x.parent()->Some_0));
                    }
                    lemma_prune(w1, root, x.parent());
                    assert forall|d: PathModel|
                        w.dirs.contains(d) && !after.dirs.contains(d) implies (d == x
                            || strictly_below(x, d)) by {
                        if d != x {
                            assert(w1.dirs.contains(d));
                            let y = x.parent()->Some_0;
                            assert(x.parent() is Some);
                            assert(y.parts =~= x.parts.drop_last());
                            if d != y {
                                assert(strictly_below(y, d));
                            }
                        }
                    }
                    assert forall|d: PathModel, f: PathModel|
                        w.dirs.contains(d) && w.files.contains_key(f) && strictly_below(
                            f,
                            d,
                        ) implies after.dirs.contains(d) by {
                        assert(w.has(f));
                        lemma_occupied(w, d, f);
                        assert(d != x);
                        assert(w1.dirs.contains(d));
                    }
                    assert forall|a: PathModel|
                        (a == x || strictly_below(x, a)) && strictly_below(a, root)
                            && after.dirs.contains(a) implies !after.holds_nothing(a) by {
                        if a == x {
                            assert(!w1.dirs.contains(x));
                        } else {
                            let y = x.parent()->Some_0;
                            assert(x.parts.len() > 0);
                            assert(y.parts =~= x.parts.drop_last());
                            if a.parts.len() == y.parts.len() {
                                assert(a.parts =~= y.parts);
                            } else {
                                assert(strictly_below(y, a));
                            }
                        }
                    }
                }
            }
        },
    }
}

/// Untracking a file on a disk without faults deletes the file and nothing
/// but directories besides. It deletes no directory but ancestors of the
/// file, never the repository root, and never a directory that still holds
/// another file at any depth; and it leaves no ancestor of the file below the
/// root behind empty.
pub proof fn law_remove_prunes_empty_ancestors(w: World, root: PathModel, rel: PathModel)
    requires
        w.well_formed(),
        names_a_file(rel),
        w.files.contains_key(root.join(rel)),
    ensures
        ({
            let target = root.join(rel);
            let after = w.carried_out(removal_steps(root, target));
            &&& after.files == w.files.remove(target)
            &&& after.dirs.subset_of(w.dirs)
            &&& after.well_formed()
            &&& w.dirs.contains(root) ==> after.dirs.contains(root)
            &&& forall|d: PathModel|
                w.dirs.contains(d) && !after.dirs.contains(d) ==> strictly_below(target, d)
            &&& forall|d: PathModel, f: PathModel|
                w.dirs.contains(d) && w.files.contains_key(f) && f != target && strictly_below(f, d)
                    ==> after.dirs.contains(d)
            &&& forall|a: PathModel|
                strictly_below(target, a) && strictly_below(a, root) && after.dirs.contains(a)
                    ==> !after.holds_nothing(a)
        }),
{
    let target = root.join(rel);
    let plan = removal_steps(root, target);
    let first = Step::RemoveFile(target);
    let rest = prune_from(root, target.parent());
    let after = w.carried_out(plan);
    assert(plan[0] == first);
    assert(plan.drop_first() =~= rest);
    let w1 = w.after(first);
    assert(after == w1.carried_out(rest));
    assert(w1.well_formed()) by {
        assert forall|p: PathModel| #[trigger]
            w1.has(p) && p.parts.len() > 0 implies w1.dirs.contains(p.parent()->Some_0) by {
            assert(w.has(p));
        }
    }
    let x = target.parent()->Some_0;
    assert(w.has(target));
    assert(w1.dirs.contains(x));
    assert(x.parts =~= target.parts.drop_last());
    lemma_prune(w1, root, target.parent());
    assert forall|a: PathModel|
        strictly_below(target, a) && strictly_below(a, root) && after.dirs.contains(
            a,
        ) implies !after.holds_nothing(a) by {
        if a.parts.len() == x.parts.len() {
            assert(a.parts =~= x.parts);
        } else {
            assert(strictly_below(x, a));
        }
    }
    assert forall|d: PathModel|
        w.dirs.contains(d) && !after.dirs.contains(d) implies strictly_below(target, d) by {
        assert(w1.dirs.contains(d));
    }
}

} // verus!
