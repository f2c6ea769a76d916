//! Laws of `apply` and `sync`: what a scan says before and after a move.

use crate::action::{lemma_first_failure, Outcome, Step};
use crate::digest::fingerprint_of;
use crate::model::{names_a_file, World};
use crate::ops::{adoption, move_of, move_steps, moves_of, travels, Direction, Move};
use crate::path::{bak_suffix, law_join_undoes_strip, PathModel};
use crate::status::{Entry, FileStatus};
use vstd::prelude::*;

verus! {

/// A relative path leads to different places from different roots.
pub proof fn lemma_join_separates(a: PathModel, b: PathModel, rel: PathModel)
    requires
        !rel.absolute,
        a != b,
    ensures
        a.join(rel) != b.join(rel),
{
    if a.join(rel) == b.join(rel) {
        assert(a.parts.len() == b.parts.len()) by {
            assert((a.parts + rel.parts).len() == (b.parts + rel.parts).len());
        }
        assert forall|i: int| 0 <= i < a.parts.len() implies a.parts[i] == b.parts[i] by {
            assert((a.parts + rel.parts)[i] == a.parts[i]);
            assert((b.parts + rel.parts)[i] == b.parts[i]);
        }
        assert(a.parts =~= b.parts);
    }
}

/// A backup path is neither the path it backs up nor the same file under
/// another root.
pub proof fn lemma_backup_is_apart(dots: PathModel, home: PathModel, rel: PathModel)
    requires
        names_a_file(rel),
    ensures
        home.join(rel).with_bak() != home.join(rel),
        home.join(rel).with_bak() != dots.join(rel),
{
    let target = home.join(rel);
    let backup = target.with_bak();
    let source = dots.join(rel);
    assert(target.parts.last() == rel.parts.last());
    assert(backup.parts.last() == rel.parts.last() + bak_suffix());
    assert(backup.parts.last().len() == rel.parts.last().len() + 4);
    assert(backup.parts.len() == target.parts.len());
    if backup == source {
        assert(source.parts.last() == rel.parts.last());
    }
}

/// What a move leaves behind on a disk without faults: every step of it is
/// performed, the target holds what the source held, and where the target
/// existed and a backup is kept, the backup holds what the target held.
pub proof fn lemma_move_effect(w: World, m: Move, target_exists: bool)
    requires
        m.target.parts.len() > 0,
        m.backup matches Some(b) ==> b != m.source && b != m.target,
        w.files.contains_key(m.source),
        target_exists && m.backup is Some ==> w.files.contains_key(m.target),
    ensures
        ({
            let after = w.carried_out(move_steps(m, target_exists));
            &&& after == w.after_all(move_steps(m, target_exists))
            &&& after.files.contains_key(m.target)
            &&& after.files[m.target] == w.files[m.source]
            &&& (target_exists && m.backup is Some ==> after.files.contains_key(m.backup->Some_0)
                && after.files[m.backup->Some_0] == w.files[m.target])
            &&& forall|p: PathModel|
                p != m.target && Some(p) != m.backup ==> #[trigger] after.files.contains_key(p)
                    == w.files.contains_key(p)
            &&& forall|p: PathModel|
                p != m.target && Some(p) != m.backup ==> #[trigger] after.files[p] == w.files[p]
            &&& forall|d: PathModel| w.dirs.contains(d) ==> after.dirs.contains(d)
        }),
{
    let steps = move_steps(m, target_exists);
    let dir = m.target.parent()->Some_0;
    let copy = Step::Copy { from: m.source, to: m.target };
    reveal_with_fuel(World::after_first, 4);
    reveal_with_fuel(World::carried_out, 4);
    if target_exists && m.backup is Some {
        let aside = Step::Copy { from: m.target, to: m.backup->Some_0 };
        assert(steps =~= seq![aside, Step::CreateDirs(dir), copy]);
        assert(steps.drop_first() =~= seq![Step::CreateDirs(dir), copy]);
        assert(steps.drop_first().drop_first() =~= seq![copy]);
        assert(steps.drop_first().drop_first().drop_first() =~= Seq::<Step>::empty());
    } else {
        assert(steps =~= seq![Step::CreateDirs(dir), copy]);
        assert(steps.drop_first() =~= seq![copy]);
        assert(steps.drop_first().drop_first() =~= Seq::<Step>::empty());
    }
}

/// A file that is in the repository and absent from home is classified
/// `MISSING`; once the plan that `apply` makes for it has been carried out on
/// a disk without faults, the next scan classifies it `CLEAN`.
pub proof fn law_apply_makes_missing_clean(
    w: World,
    dots: PathModel,
    home: PathModel,
    rel: PathModel,
)
    requires
        names_a_file(rel),
        dots != home,
        w.files.contains_key(dots.join(rel)),
        !w.has(home.join(rel)),
    ensures
        w.status(dots, home, rel) == FileStatus::MISSING,
        travels(Direction::ToHome, FileStatus::MISSING),
        w.carried_out(move_steps(move_of(Direction::ToHome, dots, home, rel), false)).status(
            dots,
            home,
            rel,
        ) == FileStatus::CLEAN,
{
    let m = move_of(Direction::ToHome, dots, home, rel);
    lemma_join_separates(dots, home, rel);
    lemma_backup_is_apart(dots, home, rel);
    lemma_move_effect(w, m, false);
}

/// A file whose two copies hold the same bytes is classified `CLEAN`.
pub proof fn law_identical_copies_are_clean(w: World, dots: PathModel, home: PathModel, rel: PathModel)
    requires
        w.files.contains_key(dots.join(rel)),
        w.files.contains_key(home.join(rel)),
        w.files[dots.join(rel)] == w.files[home.join(rel)],
    ensures
        w.status(dots, home, rel) == FileStatus::CLEAN,
{
}

/// A file whose two copies have different fingerprints is classified
/// `MODIFIED`, and a file that is classified `MODIFIED` has two copies that
/// differ in their bytes.
pub proof fn law_modified_iff_fingerprints_differ(
    w: World,
    dots: PathModel,
    home: PathModel,
    rel: PathModel,
)
    requires
        w.files.contains_key(dots.join(rel)),
        w.files.contains_key(home.join(rel)),
    ensures
        w.status(dots, home, rel) == FileStatus::MODIFIED <==> fingerprint_of(
            w.files[dots.join(rel)],
        ) != fingerprint_of(w.files[home.join(rel)]),
        w.status(dots, home, rel) == FileStatus::MODIFIED ==> w.files[dots.join(rel)]
            != w.files[home.join(rel)],
{
}

/// After `apply` on a file that exists in home, carried out on a disk
/// without faults, the backup holds what home held before and the home copy
/// equals the repository copy, which is unchanged.
pub proof fn law_apply_backs_up_then_overwrites(
    w: World,
    dots: PathModel,
    home: PathModel,
    rel: PathModel,
)
    requires
        names_a_file(rel),
        dots != home,
        w.files.contains_key(dots.join(rel)),
        w.files.contains_key(home.join(rel)),
    ensures
        ({
            let m = move_of(Direction::ToHome, dots, home, rel);
            let after = w.carried_out(move_steps(m, true));
            &&& m.backup == Some(home.join(rel).with_bak())
            &&& after.files.contains_key(home.join(rel).with_bak())
            &&& after.files[home.join(rel).with_bak()] == w.files[home.join(rel)]
            &&& after.files[home.join(rel)] == w.files[dots.join(rel)]
            &&& after.files[dots.join(rel)] == w.files[dots.join(rel)]
            &&& after.status(dots, home, rel) == FileStatus::CLEAN
        }),
{
    let m = move_of(Direction::ToHome, dots, home, rel);
    lemma_join_separates(dots, home, rel);
    lemma_backup_is_apart(dots, home, rel);
    lemma_move_effect(w, m, true);
}

/// After `sync` on a file that exists in both trees, carried out on a disk
/// without faults, the repository copy equals the home copy, which is
/// unchanged, no backup was written, and the next scan classifies the file
/// `CLEAN`.
pub proof fn law_sync_makes_modified_clean(
    w: World,
    dots: PathModel,
    home: PathModel,
    rel: PathModel,
    target_exists: bool,
)
    requires
        names_a_file(rel),
        dots != home,
        w.files.contains_key(dots.join(rel)),
        w.files.contains_key(home.join(rel)),
    ensures
        ({
            let m = move_of(Direction::ToRepository, dots, home, rel);
            let after = w.carried_out(move_steps(m, target_exists));
            &&& after.files[dots.join(rel)] == w.files[home.join(rel)]
            &&& after.files[home.join(rel)] == w.files[home.join(rel)]
            &&& after.files.contains_key(home.join(rel).with_bak()) == w.files.contains_key(
                home.join(rel).with_bak(),
            )
            &&& after.status(dots, home, rel) == FileStatus::CLEAN
        }),
{
    let m = move_of(Direction::ToRepository, dots, home, rel);
    lemma_join_separates(dots, home, rel);
    lemma_backup_is_apart(dots, home, rel);
    lemma_move_effect(w, m, target_exists);
    let after = w.carried_out(move_steps(m, target_exists));
    let bak = home.join(rel).with_bak();
    assert(after.files.contains_key(bak) == w.files.contains_key(bak));
    assert(after.files.contains_key(home.join(rel)));
    assert(after.files[home.join(rel)] == w.files[home.join(rel)]);
}

/// After `add` on a file below the home root, carried out on a disk without
/// faults, the repository holds the home version at the same relative path,
/// whatever it held before, the home file is unchanged, and the next scan
/// classifies the file `CLEAN`.
pub proof fn law_add_takes_the_home_version(
    w: World,
    dots: PathModel,
    home: PathModel,
    path: PathModel,
    target_exists: bool,
)
    requires
        path.starts_with(home),
        path != home,
        dots != home,
        w.files.contains_key(path),
    ensures
        ({
            let m = adoption(dots, home, path);
            let after = w.carried_out(move_steps(m, target_exists));
            &&& Some(m.relative_path) == path.strip_prefix(home)
            &&& m.source == path
            &&& after.files.contains_key(m.target)
            &&& after.files[m.target] == w.files[path]
            &&& after.files[path] == w.files[path]
            &&& after.status(dots, home, m.relative_path) == FileStatus::CLEAN
        }),
{
    let m = adoption(dots, home, path);
    let rel = m.relative_path;
    law_join_undoes_strip(home, path);
    assert(home.join(rel) == path);
    assert(rel.parts.len() > 0) by {
        if rel.parts.len() == 0 {
            assert(path.parts =~= home.parts);
        }
    }
    lemma_join_separates(dots, home, rel);
    lemma_move_effect(w, m, target_exists);
    let after = w.carried_out(move_steps(m, target_exists));
    assert(after.files.contains_key(path));
    assert(after.files[path] == w.files[path]);
}

/// However a run of `apply` on an existing home file ends, the home copy is
/// replaced only after its old content was written to the backup: at every
/// point the home copy still holds its old bytes, or the backup does.
pub proof fn law_no_overwrite_without_backup(
    w: World,
    dots: PathModel,
    home: PathModel,
    rel: PathModel,
    log: Seq<Outcome>,
)
    requires
        names_a_file(rel),
        w.files.contains_key(dots.join(rel)),
        w.files.contains_key(home.join(rel)),
    ensures
        ({
            let m = move_of(Direction::ToHome, dots, home, rel);
            let after = w.after_log(move_steps(m, true), log);
            let old_content = w.files[home.join(rel)];
            ||| (after.files.contains_key(home.join(rel)) && after.files[home.join(rel)]
                == old_content)
            ||| (after.files.contains_key(home.join(rel).with_bak())
                && after.files[home.join(rel).with_bak()] == old_content)
        }),
{
    let m = move_of(Direction::ToHome, dots, home, rel);
    let steps = move_steps(m, true);
    let dir = m.target.parent()->Some_0;
    let aside = Step::Copy { from: m.target, to: m.backup->Some_0 };
    let copy = Step::Copy { from: m.source, to: m.target };
    lemma_backup_is_apart(dots, home, rel);
    lemma_first_failure(log);
    reveal_with_fuel(World::after_first, 4);
    assert(steps =~= seq![aside, Step::CreateDirs(dir), copy]);
    assert(steps.drop_first() =~= seq![Step::CreateDirs(dir), copy]);
    assert(steps.drop_first().drop_first() =~= seq![copy]);
    assert(steps.drop_first().drop_first().drop_first() =~= Seq::<Step>::empty());
}

/// `sync` plans nothing for entries that are not `MODIFIED`: where no entry
/// is, there is no move at all, so nothing is copied and both trees stay as
/// they are.
pub proof fn law_sync_leaves_unmodified_alone(
    dots: PathModel,
    home: PathModel,
    entries: Seq<Entry>,
)
    requires
        forall|i: int| 0 <= i < entries.len() ==> entries[i].status != FileStatus::MODIFIED,
    ensures
        moves_of(Direction::ToRepository, dots, home, entries).len() == 0,
    decreases entries.len(),
{
    if entries.len() > 0 {
        let rest = entries.drop_last();
        assert forall|i: int| 0 <= i < rest.len() implies rest[i].status
            != FileStatus::MODIFIED by {
            assert(rest[i] == entries[i]);
        }
        law_sync_leaves_unmodified_alone(dots, home, rest);
    }
}

} // verus!
