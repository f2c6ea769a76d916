//! A model of the disk.
//!
//! The library plans and the caller acts, so what an operation achieves can
//! only be said against a description of what the actions do. This module
//! gives that description: a `World` of files and directories, and the
//! effect of each `Step` on it. The model reads every file that exists
//! without fault; what a failing disk does to a plan is said by the log. The
//! modules under `laws` prove what the plans achieve in every such world.

use crate::action::{performed, Outcome, Step};
use crate::digest::fingerprint_of;
use crate::path::PathModel;
use crate::status::{status_of, FileStatus, Seen};
use vstd::prelude::*;

verus! {

/// The files, with their content, and the directories that exist.
pub struct World {
    pub files: Map<PathModel, Seq<u8>>,
    pub dirs: Set<PathModel>,
}

impl World {
    /// Whether anything exists at `p`.
    pub open spec fn has(self, p: PathModel) -> bool {
        self.files.contains_key(p) || self.dirs.contains(p)
    }

    /// The fingerprint of the file at `p`; none where no file is there.
    pub open spec fn digest(self, p: PathModel) -> Option<Seq<char>> {
        if self.files.contains_key(p) {
            Some(fingerprint_of(self.files[p]))
        } else {
            None
        }
    }

    /// What a scan finds at the two places of a file.
    pub open spec fn seen(self, repo_path: PathModel, home_path: PathModel) -> Seen {
        if self.has(home_path) {
            Seen::Present {
                repo_digest: self.digest(repo_path),
                home_digest: self.digest(home_path),
            }
        } else {
            Seen::Absent
        }
    }

    /// The status that a scan gives the file at `rel`.
    pub open spec fn status(self, dots: PathModel, home: PathModel, rel: PathModel) -> FileStatus {
        status_of(self.seen(dots.join(rel), home.join(rel)))
    }

    /// Whether the directory `d` holds nothing.
    pub open spec fn holds_nothing(self, d: PathModel) -> bool {
        forall|p: PathModel| #[trigger] self.has(p) ==> p.parent() != Some(d)
    }

    /// Whether a step can be performed: a copy needs its source, a deletion
    /// needs what it deletes, and a directory goes only when it is empty.
    pub open spec fn admits(self, step: Step) -> bool {
        match step {
            Step::CreateDirs(_) => true,
            Step::Copy { from, to } => self.files.contains_key(from),
            Step::RemoveFile(file) => self.files.contains_key(file),
            Step::RemoveDirIfEmpty(dir) => self.dirs.contains(dir) && self.holds_nothing(dir),
        }
    }

    /// The world after a step was performed.
    pub open spec fn after(self, step: Step) -> World {
        match step {
            Step::CreateDirs(dir) => World {
                files: self.files,
                dirs: self.dirs.union(Set::new(|p: PathModel| dir.starts_with(p))),
            },
            Step::Copy { from, to } => World {
                files: self.files.insert(to, self.files[from]),
                dirs: self.dirs,
            },
            Step::RemoveFile(file) => World { files: self.files.remove(file), dirs: self.dirs },
            Step::RemoveDirIfEmpty(dir) => World { files: self.files, dirs: self.dirs.remove(dir) },
        }
    }

    /// The world after the first `n` steps of a plan were performed.
    pub open spec fn after_first(self, plan: Seq<Step>, n: nat) -> World
        decreases n,
    {
        if n == 0 || plan.len() == 0 {
            self
        } else {
            self.after(plan[0]).after_first(plan.drop_first(), (n - 1) as nat)
        }
    }

    /// The world after a whole plan was performed.
    pub open spec fn after_all(self, plan: Seq<Step>) -> World {
        self.after_first(plan, plan.len())
    }

    /// The world after a plan was carried out on a disk without faults: each
    /// step is performed if the world admits it, and the plan stops at the
    /// first step that it does not admit.
    pub open spec fn carried_out(self, plan: Seq<Step>) -> World
        decreases plan.len(),
    {
        if plan.len() == 0 || !self.admits(plan[0]) {
            self
        } else {
            self.after(plan[0]).carried_out(plan.drop_first())
        }
    }

    /// Whether everything that exists lies in a directory that exists, and
    /// nothing is a file and a directory at once.
    pub open spec fn well_formed(self) -> bool {
        &&& forall|p: PathModel| #[trigger]
            self.has(p) && p.parts.len() > 0 ==> self.dirs.contains(p.parent()->Some_0)
        &&& forall|p: PathModel| self.files.contains_key(p) ==> !self.dirs.contains(p)
    }

    /// The world that a log leaves behind: the steps before the first
    /// failure took effect, and nothing else did.
    pub open spec fn after_log(self, plan: Seq<Step>, log: Seq<Outcome>) -> World {
        self.after_first(plan, performed(plan.len(), log))
    }
}

/// Whether `rel` can name a file below a root: it is relative and not empty.
pub open spec fn names_a_file(rel: PathModel) -> bool {
    !rel.absolute && rel.parts.len() > 0
}

/// Whether `p` lies below `d`, at any depth, and is not `d` itself.
pub open spec fn strictly_below(p: PathModel, d: PathModel) -> bool {
    p.starts_with(d) && d.parts.len() < p.parts.len()
}

/// A directory with anything below it, at any depth, is not empty.
pub proof fn lemma_occupied(w: World, d: PathModel, f: PathModel)
    requires
        w.well_formed(),
        w.has(f),
        strictly_below(f, d),
    ensures
        !w.holds_nothing(d),
    decreases f.parts.len(),
{
    let g = f.parent()->Some_0;
    if d.parts.len() == g.parts.len() {
        assert(d.parts =~= g.parts);
        assert(f.parent() == Some(d));
    } else {
        assert(w.has(g));
        lemma_occupied(w, d, g);
    }
}

/// Every ancestor of something that exists is a directory.
pub proof fn lemma_ancestor_is_dir(w: World, d: PathModel, f: PathModel)
    requires
        w.well_formed(),
        w.has(f),
        strictly_below(f, d),
    ensures
        w.dirs.contains(d),
    decreases f.parts.len(),
{
    let g = f.parent()->Some_0;
    assert(w.dirs.contains(g));
    if d.parts.len() == g.parts.len() {
        assert(d.parts =~= g.parts);
    } else {
        lemma_ancestor_is_dir(w, d, g);
    }
}

} // verus!
