//! The sync operations: what to copy, back up or delete, and in what order.
//!
//! Each operation turns what is known about the two trees into a plan. The
//! caller carries the plan out as `action` prescribes and reads the result off
//! the log.

use crate::action::{progress, Action, Outcome, Progress, ProgressModel, Step, progress_of};
use crate::error::SyncError;
use crate::path::{with_bak, FilePath, PathModel};
use crate::seqs::views;
use crate::status::{DotFile, Entry, FileStatus};
use vstd::prelude::*;

verus! {

/// Which way files travel.
#[derive(Clone, Copy, Debug, PartialEq, Eq, Structural)]
pub enum Direction {
    /// From the repository into the home tree.
    ToHome,
    /// From the home tree back into the repository.
    ToRepository,
}

/// One file to bring from one tree to the other, in contracts.
pub struct Move {
    pub relative_path: PathModel,
    pub source: PathModel,
    pub target: PathModel,
    /// Where the target's old content is kept before it is replaced.
    pub backup: Option<PathModel>,
}

/// One file to bring from one tree to the other.
#[derive(Debug)]
pub struct Transfer {
    pub relative_path: FilePath,
    pub source: FilePath,
    pub target: FilePath,
    /// Where the target's old content is kept before it is replaced.
    pub backup: Option<FilePath>,
}

/// The path that an optional path stands for.
pub open spec fn path_of(p: Option<FilePath>) -> Option<PathModel> {
    match p {
        Some(q) => Some(q@),
        None => None,
    }
}

impl View for Transfer {
    type V = Move;

    open spec fn view(&self) -> Move {
        Move {
            relative_path: self.relative_path@,
            source: self.source@,
            target: self.target@,
            backup: path_of(self.backup),
        }
    }
}

/// Whether a file with this status travels in this direction. Into the home
/// tree go the files that are missing there or differ; back into the
/// repository go only those that differ.
pub open spec fn travels(direction: Direction, status: FileStatus) -> bool {
    match direction {
        Direction::ToHome => status == FileStatus::MISSING || status == FileStatus::MODIFIED,
        Direction::ToRepository => status == FileStatus::MODIFIED,
    }
}

/// The move of one file. Only the way into the home tree keeps a backup: on
/// the way back the repository's own history is the safety net.
pub open spec fn move_of(
    direction: Direction,
    dots: PathModel,
    home: PathModel,
    rel: PathModel,
) -> Move {
    match direction {
        Direction::ToHome => Move {
            relative_path: rel,
            source: dots.join(rel),
            target: home.join(rel),
            backup: Some(home.join(rel).with_bak()),
        },
        Direction::ToRepository => Move {
            relative_path: rel,
            source: home.join(rel),
            target: dots.join(rel),
            backup: None,
        },
    }
}

/// The moves for the entries that travel, in the order of the entries.
pub open spec fn moves_of(
    direction: Direction,
    dots: PathModel,
    home: PathModel,
    entries: Seq<Entry>,
) -> Seq<Move>
    decreases entries.len(),
{
    if entries.len() == 0 {
        Seq::empty()
    } else {
        let before = moves_of(direction, dots, home, entries.drop_last());
        if travels(direction, entries.last().status) {
            before.push(move_of(direction, dots, home, entries.last().relative_path))
        } else {
            before
        }
    }
}

/// The steps of one move. Where the target exists and a backup is kept, the
/// old content is copied aside first; then the target's directory is made;
/// then the file is copied. Since a plan stops at its first failure, a target
/// is never replaced unless its backup was written.
pub open spec fn move_steps(m: Move, target_exists: bool) -> Seq<Step> {
    let aside = if target_exists && m.backup is Some {
        seq![Step::Copy { from: m.target, to: m.backup->Some_0 }]
    } else {
        Seq::empty()
    };
    let dirs = match m.target.parent() {
        Some(dir) => seq![Step::CreateDirs(dir)],
        None => Seq::empty(),
    };
    aside + dirs + seq![Step::Copy { from: m.source, to: m.target }]
}

fn travels_exec(direction: Direction, status: FileStatus) -> (yes: bool)
    ensures
        yes == travels(direction, status),
{
    match direction {
        Direction::ToHome => status == FileStatus::MISSING || status == FileStatus::MODIFIED,
        Direction::ToRepository => status == FileStatus::MODIFIED,
    }
}

fn transfer_of(direction: Direction, dots_dir: &FilePath, home_dir: &FilePath, rel: &FilePath) -> (t:
    Transfer)
    ensures
        t@ == move_of(direction, dots_dir@, home_dir@, rel@),
{
    match direction {
        Direction::ToHome => {
            let target = home_dir.join(rel);
            let backup = with_bak(&target);
            Transfer {
                relative_path: rel.clone(),
                source: dots_dir.join(rel),
                target,
                backup: Some(backup),
            }
        },
        Direction::ToRepository => Transfer {
            relative_path: rel.clone(),
            source: home_dir.join(rel),
            target: dots_dir.join(rel),
            backup: None,
        },
    }
}

/// Plans the moves of one pass over a scan.
pub fn plan_transfers(
    direction: Direction,
    dots_dir: &FilePath,
    home_dir: &FilePath,
    entries: &Vec<DotFile>,
) -> (transfers: Vec<Transfer>)
    ensures
        views(transfers@) == moves_of(direction, dots_dir@, home_dir@, views(entries@)),
{
    let mut transfers: Vec<Transfer> = Vec::new();
    let n = entries.len();
    let mut i: usize = 0;
    let ghost all = views(entries@);
    assert(all.take(0) =~= Seq::<Entry>::empty());
    assert(views(transfers@) =~= Seq::<Move>::empty());
    while i < n
        invariant
            i <= n,
            n == entries.len(),
            all == views(entries@),
            views(transfers@) == moves_of(direction, dots_dir@, home_dir@, all.take(i as int)),
        decreases n - i,
    {
        let ghost before = views(transfers@);
        proof {
            assert(all.take(i + 1).drop_last() =~= all.take(i as int));
            assert(all.take(i + 1).last() == entries@[i as int]@);
        }
        if travels_exec(direction, entries[i].status) {
            transfers.push(transfer_of(direction, dots_dir, home_dir, &entries[i].relative_path));
            assert(views(transfers@) =~= before.push(transfers@[transfers@.len() - 1]@));
        }
        i += 1;
    }
    assert(all.take(n as int) =~= all);
    transfers
}

/// Repository to home: a move for every entry that is missing from home or
/// differs there, each with a backup path beside its target.
pub fn apply(dots_dir: &FilePath, home_dir: &FilePath, entries: &Vec<DotFile>) -> (transfers: Vec<
    Transfer,
>)
    ensures
        views(transfers@) == moves_of(Direction::ToHome, dots_dir@, home_dir@, views(entries@)),
{
    plan_transfers(Direction::ToHome, dots_dir, home_dir, entries)
}

/// Home to repository: a move for every entry that differs, and for no
/// other. No backup is kept.
pub fn sync(dots_dir: &FilePath, home_dir: &FilePath, entries: &Vec<DotFile>) -> (transfers: Vec<
    Transfer,
>)
    ensures
        views(transfers@) == moves_of(
            Direction::ToRepository,
            dots_dir@,
            home_dir@,
            views(entries@),
        ),
{
    plan_transfers(Direction::ToRepository, dots_dir, home_dir, entries)
}

impl Transfer {
    /// The plan of this move, given whether its target exists right now.
    pub fn steps(&self, target_exists: bool) -> (plan: Vec<Action>)
        ensures
            views(plan@) == move_steps(self@, target_exists),
    {
        let mut plan: Vec<Action> = Vec::new();
        if target_exists {
            match &self.backup {
                Some(backup) => {
                    plan.push(Action::Copy { from: self.target.clone(), to: backup.clone() });
                },
                None => {},
            }
        }
        match self.target.parent() {
            Some(dir) => {
                plan.push(Action::CreateDirs(dir));
            },
            None => {},
        }
        plan.push(Action::Copy { from: self.source.clone(), to: self.target.clone() });
        assert(views(plan@) =~= move_steps(self@, target_exists));
        plan
    }

    /// The backup that a run of this move has written, if any: the first
    /// step of the plan where the target existed and a backup is kept.
    pub fn backup_written(&self, target_exists: bool, log: &Vec<Outcome>) -> (written: Option<
        FilePath,
    >)
        ensures
            written is Some <==> (target_exists && self@.backup is Some && log@.len() > 0
                && log@[0] is Done),
            written matches Some(b) ==> Some(b@) == self@.backup,
    {
        if !target_exists || log.len() == 0 {
            return None;
        }
        match (&self.backup, &log[0]) {
            (Some(backup), Outcome::Done) => Some(backup.clone()),
            _ => None,
        }
    }
}

/// What a pass over a scan came to.
#[derive(Clone, Copy, Debug, PartialEq, Eq, Structural)]
pub enum Summary {
    /// No entry matched: there was nothing to do.
    NothingToDo,
    /// At least one entry matched and was dealt with.
    Completed,
}

/// The summary of a pass: nothing to do exactly when no entry matched.
pub fn summarize(transfers: &Vec<Transfer>) -> (summary: Summary)
    ensures
        summary == if transfers@.len() == 0 {
            Summary::NothingToDo
        } else {
            Summary::Completed
        },
{
    if transfers.len() == 0 {
        Summary::NothingToDo
    } else {
        Summary::Completed
    }
}

/// The result of a move, read off its log: `None` while the plan is under
/// way, success once it is through, and a copy error with the system's words
/// where a step failed.
pub fn transfer_result(plan: &Vec<Action>, log: &Vec<Outcome>) -> (result: Option<
    Result<(), SyncError>,
>)
    ensures
        match progress_of(plan@.len(), log@) {
            ProgressModel::Pending { .. } => result is None,
            ProgressModel::Completed => result == Some(Ok::<(), SyncError>(())),
            ProgressModel::Stopped { at, detail } => result matches Some(
                Err(SyncError::CopyError(d)),
            ) && d@ == detail,
        },
{
    match progress(plan, log) {
        Progress::Pending { .. } => None,
        Progress::Completed => Some(Ok(())),
        Progress::Stopped { at, detail } => Some(Err(SyncError::CopyError(detail))),
    }
}

/// The move that brings the file at `path`, which lies under the home root,
/// into the repository at the same relative path. It replaces what is there
/// and keeps no backup.
pub open spec fn adoption(dots: PathModel, home: PathModel, path: PathModel) -> Move {
    let rel = PathModel { absolute: false, parts: path.parts.skip(home.parts.len() as int) };
    Move { relative_path: rel, source: path, target: dots.join(rel), backup: None }
}

/// Tracks a file that lives under the home root. `resolved` is the canonical
/// absolute path of the file, or `None` where the path that was named does
/// not exist. Nothing is planned unless the file lies under the home root.
pub fn add(dots_dir: &FilePath, home_dir: &FilePath, resolved: Option<&FilePath>) -> (result:
    Result<Transfer, SyncError>)
    ensures
        match resolved {
            None => result matches Err(SyncError::NotFound),
            Some(p) => if p@.starts_with(home_dir@) {
                result matches Ok(t) && t@ == adoption(dots_dir@, home_dir@, p@)
            } else {
                result matches Err(SyncError::OutsideHome)
            },
        },
{
    match resolved {
        None => Err(SyncError::NotFound),
        Some(path) => match path.strip_prefix(home_dir) {
            None => Err(SyncError::OutsideHome),
            Some(rel) => {
                let target = dots_dir.join(&rel);
                Ok(Transfer { relative_path: rel, source: path.clone(), target, backup: None })
            },
        },
    }
}

/// The directories to prune after a file was deleted: from `dir` upward,
/// each as long as it is empty, and never the root itself.
pub open spec fn prune_from(root: PathModel, dir: Option<PathModel>) -> Seq<Step>
    decreases
        (match dir {
            Some(d) => d.parts.len() + 1,
            None => 0,
        }),
{
    match dir {
        None => Seq::empty(),
        Some(d) => if d == root {
            Seq::empty()
        } else {
            seq![Step::RemoveDirIfEmpty(d)] + prune_from(root, d.parent())
        },
    }
}

/// The plan that untracks `target`: delete the file, then prune upward.
/// Pruning stops at the first directory that is not empty, since a plan
/// stops at its first failure.
pub open spec fn removal_steps(root: PathModel, target: PathModel) -> Seq<Step> {
    seq![Step::RemoveFile(target)] + prune_from(root, target.parent())
}

/// Untracks the file at `relative` below the repository root. `present` says
/// whether that file exists in the repository.
pub fn remove(dots_dir: &FilePath, relative: &FilePath, present: bool) -> (result: Result<
    Vec<Action>,
    SyncError,
>)
    ensures
        if present {
            result matches Ok(plan) && views(plan@) == removal_steps(
                dots_dir@,
                dots_dir@.join(relative@),
            )
        } else {
            result matches Err(SyncError::NotTracked)
        },
{
    if !present {
        return Err(SyncError::NotTracked);
    }
    let target = dots_dir.join(relative);
    let mut plan: Vec<Action> = Vec::new();
    let mut current = target.parent();
    plan.push(Action::RemoveFile(target));
    assert(views(plan@) =~= seq![Step::RemoveFile(dots_dir@.join(relative@))]);
    while current.is_some() && !current.as_ref().unwrap().same_as(dots_dir)
        invariant
            views(plan@) + prune_from(dots_dir@, path_of(current)) == removal_steps(
                dots_dir@,
                dots_dir@.join(relative@),
            ),
        decreases
            (match current {
                Some(d) => d@.parts.len() + 1,
                None => 0,
            }),
    {
        let ghost before = views(plan@);
        let dir = current.unwrap();
        let up = dir.parent();
        plan.push(Action::RemoveDirIfEmpty(dir));
        current = up;
        assert(views(plan@) =~= before.push(plan@[plan@.len() - 1]@));
        assert(views(plan@) + prune_from(dots_dir@, path_of(current)) =~= removal_steps(
            dots_dir@,
            dots_dir@.join(relative@),
        ));
    }
    assert(prune_from(dots_dir@, path_of(current)) =~= Seq::<Step>::empty());
    assert(views(plan@) + Seq::<Step>::empty() =~= views(plan@));
    Ok(plan)
}

/// The result of untracking, read off the log: `None` while the plan is
/// under way; a failure where the file itself could not be deleted; success
/// otherwise, wherever the pruning stopped.
pub fn remove_result(plan: &Vec<Action>, log: &Vec<Outcome>) -> (result: Option<
    Result<(), SyncError>,
>)
    ensures
        match progress_of(plan@.len(), log@) {
            ProgressModel::Pending { .. } => result is None,
            ProgressModel::Completed => result == Some(Ok::<(), SyncError>(())),
            ProgressModel::Stopped { at, detail } => if at == 0 {
                result matches Some(Err(SyncError::RemovalFailed(d))) && d@ == detail
            } else {
                result == Some(Ok::<(), SyncError>(()))
            },
        },
{
    match progress(plan, log) {
        Progress::Pending { .. } => None,
        Progress::Completed => Some(Ok(())),
        Progress::Stopped { at, detail } => {
            if at == 0 {
                Some(Err(SyncError::RemovalFailed(detail)))
            } else {
                Some(Ok(()))
            }
        },
    }
}

/// How the attempt to create the repository root went.
#[derive(Clone, Copy, Debug, PartialEq, Eq, Structural)]
pub enum DirCreation {
    Created,
    AlreadyExists,
    PermissionDenied,
    Failed,
}

/// Whether bootstrapping goes on to set up version control: it does when the
/// repository root was created or was there already, and stops on every
/// other outcome.
pub fn init(creation: DirCreation) -> (proceed: bool)
    ensures
        proceed == (creation == DirCreation::Created || creation == DirCreation::AlreadyExists),
{
    match creation {
        DirCreation::Created => true,
        DirCreation::AlreadyExists => true,
        DirCreation::PermissionDenied => false,
        DirCreation::Failed => false,
    }
}

} // verus!
