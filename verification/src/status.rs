//! The reconciler: one status for each tracked file.
//!
//! A scan works in three steps. `scan_targets` says where each tracked file
//! and its counterpart under the home root lie. The caller looks at both
//! places and records what it found as an `Observation`. `scan_dots` turns
//! the observations into statuses. Nothing is cached between scans.

use crate::path::{law_join_undoes_strip, FilePath, PathModel};
use crate::seqs::views;
use vstd::prelude::*;

verus! {

/// How a tracked file stands to its copy under the home root.
#[derive(Clone, Copy, Debug, PartialEq, Eq, Structural)]
pub enum FileStatus {
    /// In the repository, absent from home.
    MISSING,
    /// In both; the fingerprints differ.
    MODIFIED,
    /// In both; the fingerprints match.
    CLEAN,
    /// In both, but a fingerprint could not be computed.
    ERROR,
}

/// What a tracked file is, in contracts: its identity and its status.
pub struct Entry {
    pub relative_path: PathModel,
    pub status: FileStatus,
}

/// A tracked file with its status.
#[derive(Debug)]
pub struct DotFile {
    pub relative_path: FilePath,
    pub status: FileStatus,
}

impl View for DotFile {
    type V = Entry;

    open spec fn view(&self) -> Entry {
        Entry { relative_path: self.relative_path@, status: self.status }
    }
}

/// What was found at the two places of a tracked file, in contracts.
pub enum Seen {
    /// Nothing exists at the home path.
    Absent,
    /// Something exists at the home path; each fingerprint is `None` where
    /// reading that copy failed.
    Present { repo_digest: Option<Seq<char>>, home_digest: Option<Seq<char>> },
}

/// What was found at the two places of a tracked file.
#[derive(Debug)]
pub enum Observation {
    /// Nothing exists at the home path.
    Absent,
    /// Something exists at the home path; each fingerprint is `None` where
    /// reading that copy failed.
    Present { repo_digest: Option<String>, home_digest: Option<String> },
}

/// The text of an optional string.
pub open spec fn text_of(s: Option<String>) -> Option<Seq<char>> {
    match s {
        Some(t) => Some(t@),
        None => None,
    }
}

impl View for Observation {
    type V = Seen;

    open spec fn view(&self) -> Seen {
        match *self {
            Observation::Absent => Seen::Absent,
            Observation::Present { repo_digest, home_digest } => Seen::Present {
                repo_digest: text_of(repo_digest),
                home_digest: text_of(home_digest),
            },
        }
    }
}

/// The status that an observation amounts to. Absence is decided first; a
/// failed fingerprint on either side is an error, never a match or a miss.
pub open spec fn status_of(seen: Seen) -> FileStatus {
    match seen {
        Seen::Absent => FileStatus::MISSING,
        Seen::Present { repo_digest: Some(r), home_digest: Some(h) } => if r == h {
            FileStatus::CLEAN
        } else {
            FileStatus::MODIFIED
        },
        Seen::Present { .. } => FileStatus::ERROR,
    }
}

/// Classifies one observation.
pub fn classify(observation: &Observation) -> (status: FileStatus)
    ensures
        status == status_of(observation@),
{
    match observation {
        Observation::Absent => FileStatus::MISSING,
        Observation::Present { repo_digest: Some(r), home_digest: Some(h) } => {
            if *r == *h {
                FileStatus::CLEAN
            } else {
                FileStatus::MODIFIED
            }
        },
        Observation::Present { .. } => FileStatus::ERROR,
    }
}

/// Where to look for one tracked file, in contracts.
pub struct Target {
    pub relative_path: PathModel,
    pub repo_path: PathModel,
    pub home_path: PathModel,
}

/// Where to look for one tracked file: its identity, its place in the
/// repository and the place of its counterpart under the home root.
#[derive(Debug)]
pub struct Probe {
    pub relative_path: FilePath,
    pub repo_path: FilePath,
    pub home_path: FilePath,
}

impl View for Probe {
    type V = Target;

    open spec fn view(&self) -> Target {
        Target {
            relative_path: self.relative_path@,
            repo_path: self.repo_path@,
            home_path: self.home_path@,
        }
    }
}

/// The places to look at for the files found under the repository root, in
/// the order in which they were found. A path that does not lie under the
/// repository root is no tracked file and is passed over.
pub open spec fn targets_of(dots: PathModel, home: PathModel, files: Seq<PathModel>) -> Seq<
    Target,
>
    decreases files.len(),
{
    if files.len() == 0 {
        Seq::empty()
    } else {
        let before = targets_of(dots, home, files.drop_last());
        match files.last().strip_prefix(dots) {
            Some(rel) => before.push(
                Target { relative_path: rel, repo_path: files.last(), home_path: home.join(rel) },
            ),
            None => before,
        }
    }
}

/// Says where each tracked file and its home counterpart lie.
pub fn scan_targets(dots_dir: &FilePath, home_dir: &FilePath, files: &Vec<FilePath>) -> (probes:
    Vec<Probe>)
    ensures
        views(probes@) == targets_of(dots_dir@, home_dir@, views(files@)),
{
    let mut probes: Vec<Probe> = Vec::new();
    let n = files.len();
    let mut i: usize = 0;
    let ghost all = views(files@);
    assert(all.take(0) =~= Seq::<PathModel>::empty());
    assert(views(probes@) =~= Seq::<Target>::empty());
    while i < n
        invariant
            i <= n,
            n == files.len(),
            all == views(files@),
            views(probes@) == targets_of(dots_dir@, home_dir@, all.take(i as int)),
        decreases n - i,
    {
        let ghost before = views(probes@);
        proof {
            assert(all.take(i + 1).drop_last() =~= all.take(i as int));
            assert(all.take(i + 1).last() == files@[i as int]@);
        }
        match files[i].strip_prefix(dots_dir) {
            Some(rel) => {
                let home_path = home_dir.join(&rel);
                probes.push(Probe { relative_path: rel, repo_path: files[i].clone(), home_path });
                assert(views(probes@) =~= before.push(probes@[probes@.len() - 1]@));
            },
            None => {},
        }
        i += 1;
    }
    assert(all.take(n as int) =~= all);
    probes
}

/// A tracked file together with what was found at its two places.
#[derive(Debug)]
pub struct Sighting {
    pub relative_path: FilePath,
    pub observation: Observation,
}

/// The entry that a sighting amounts to.
pub open spec fn entry_of(relative_path: PathModel, seen: Seen) -> Entry {
    Entry { relative_path, status: status_of(seen) }
}

/// Classifies every tracked file: one entry for each sighting, in the same
/// order, neither sorted nor deduplicated.
pub fn scan_dots(sightings: &Vec<Sighting>) -> (entries: Vec<DotFile>)
    ensures
        entries@.len() == sightings@.len(),
        forall|i: int|
            0 <= i < sightings@.len() ==> #[trigger] entries@[i]@ == entry_of(
                sightings@[i].relative_path@,
                sightings@[i].observation@,
            ),
{
    let mut entries: Vec<DotFile> = Vec::new();
    let n = sightings.len();
    let mut i: usize = 0;
    while i < n
        invariant
            i <= n,
            n == sightings.len(),
            entries@.len() == i,
            forall|j: int|
                0 <= j < i ==> #[trigger] entries@[j]@ == entry_of(
                    sightings@[j].relative_path@,
                    sightings@[j].observation@,
                ),
        decreases n - i,
    {
        let status = classify(&sightings[i].observation);
        entries.push(DotFile { relative_path: sightings[i].relative_path.clone(), status });
        i += 1;
    }
    entries
}

/// A repository tree without files has an empty scan: there is no place to
/// look at, and so no entry.
pub proof fn law_empty_tree_scans_empty(dots: PathModel, home: PathModel)
    ensures
        targets_of(dots, home, Seq::<PathModel>::empty()) == Seq::<Target>::empty(),
{
}

/// Every target of a scan names one file in both trees: its place in the
/// repository is the repository root joined with its relative path, and its
/// place in home is the home root joined with the same relative path.
pub proof fn law_targets_share_identity(dots: PathModel, home: PathModel, files: Seq<PathModel>)
    ensures
        forall|i: int|
            0 <= i < targets_of(dots, home, files).len() ==> {
                let t = #[trigger] targets_of(dots, home, files)[i];
                &&& !t.relative_path.absolute
                &&& t.repo_path == dots.join(t.relative_path)
                &&& t.home_path == home.join(t.relative_path)
            },
    decreases files.len(),
{
    if files.len() > 0 {
        let before = targets_of(dots, home, files.drop_last());
        law_targets_share_identity(dots, home, files.drop_last());
        if files.last().starts_with(dots) {
            law_join_undoes_strip(dots, files.last());
        }
        assert forall|i: int| 0 <= i < targets_of(dots, home, files).len() implies {
            let t = #[trigger] targets_of(dots, home, files)[i];
            &&& !t.relative_path.absolute
            &&& t.repo_path == dots.join(t.relative_path)
            &&& t.home_path == home.join(t.relative_path)
        } by {
            if i < before.len() {
                assert(targets_of(dots, home, files)[i] == before[i]);
            }
        }
    }
}

} // verus!
