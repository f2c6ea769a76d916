//! Actions on the two trees, and the rule by which a plan is carried out.
//!
//! The library never touches the disk. It hands out plans, sequences of
//! actions, and the caller performs them in order and logs how each one went.
//! A plan stops at its first failure: what follows a failed action is never
//! performed.

use crate::path::{FilePath, PathModel};
use vstd::prelude::*;

verus! {

/// What an action is, in contracts.
pub enum Step {
    /// Create the directory and every missing ancestor of it.
    CreateDirs(PathModel),
    /// Copy the whole file `from` to `to`, replacing what is there.
    Copy { from: PathModel, to: PathModel },
    /// Delete the file.
    RemoveFile(PathModel),
    /// Delete the directory if it holds nothing; fail if it holds anything.
    RemoveDirIfEmpty(PathModel),
}

/// One change to the disk that a caller is asked to make.
#[derive(Debug)]
pub enum Action {
    /// Create the directory and every missing ancestor of it.
    CreateDirs(FilePath),
    /// Copy the whole file `from` to `to`, replacing what is there.
    Copy { from: FilePath, to: FilePath },
    /// Delete the file.
    RemoveFile(FilePath),
    /// Delete the directory if it holds nothing; fail if it holds anything.
    RemoveDirIfEmpty(FilePath),
}

impl View for Action {
    type V = Step;

    open spec fn view(&self) -> Step {
        match *self {
            Action::CreateDirs(dir) => Step::CreateDirs(dir@),
            Action::Copy { from, to } => Step::Copy { from: from@, to: to@ },
            Action::RemoveFile(file) => Step::RemoveFile(file@),
            Action::RemoveDirIfEmpty(dir) => Step::RemoveDirIfEmpty(dir@),
        }
    }
}

/// How one action went. A failure carries the system's own words.
#[derive(Debug)]
pub enum Outcome {
    Done,
    Failed(String),
}

/// How far a plan got.
#[derive(Debug)]
pub enum Progress {
    /// Every action was performed and none failed.
    Completed,
    /// The action at `at` failed, after `at` successful ones.
    Stopped { at: usize, detail: String },
    /// Nothing failed so far, and the action at `next` is due.
    Pending { next: usize },
}

/// The position of the first failure in a log, or the log's length where
/// nothing failed.
pub open spec fn first_failure(log: Seq<Outcome>) -> int
    decreases log.len(),
{
    if log.len() == 0 || log[0] is Failed {
        0
    } else {
        1 + first_failure(log.drop_first())
    }
}

/// The number of actions of a plan that took effect according to a log: those
/// before the first failure, and none beyond the plan's end.
pub open spec fn performed(plan_len: nat, log: Seq<Outcome>) -> nat {
    let clean = first_failure(log);
    if clean < plan_len as int {
        clean as nat
    } else {
        plan_len
    }
}

/// `first_failure` lies within the log, nothing before it failed, and what
/// stands at it, if anything, is a failure.
pub proof fn lemma_first_failure(log: Seq<Outcome>)
    ensures
        0 <= first_failure(log) <= log.len(),
        forall|i: int| 0 <= i < first_failure(log) ==> log[i] is Done,
        first_failure(log) < log.len() ==> log[first_failure(log)] is Failed,
    decreases log.len(),
{
    if log.len() == 0 || log[0] is Failed {
    } else {
        let rest = log.drop_first();
        lemma_first_failure(rest);
        assert forall|i: int| 0 <= i < first_failure(log) implies log[i] is Done by {
            if i > 0 {
                assert(rest[i - 1] == log[i]);
            }
        }
        if first_failure(rest) < rest.len() {
            assert(rest[first_failure(rest)] == log[first_failure(log)]);
        }
    }
}

/// A prefix without a failure fixes `first_failure` from below, and a failure
/// right after it fixes it exactly.
pub proof fn lemma_first_failure_at(log: Seq<Outcome>, k: int)
    requires
        0 <= k <= log.len(),
        forall|i: int| 0 <= i < k ==> log[i] is Done,
        k < log.len() ==> log[k] is Failed,
    ensures
        first_failure(log) == k,
    decreases log.len(),
{
    if log.len() == 0 || log[0] is Failed {
    } else {
        let rest = log.drop_first();
        assert forall|i: int| 0 <= i < k - 1 implies rest[i] is Done by {
            assert(rest[i] == log[i + 1]);
        }
        lemma_first_failure_at(rest, k - 1);
    }
}

/// How far a plan of `plan_len` actions got, going by the log.
pub open spec fn progress_of(plan_len: nat, log: Seq<Outcome>) -> ProgressModel {
    let clean = first_failure(log);
    if clean >= plan_len as int {
        ProgressModel::Completed
    } else if clean < log.len() {
        ProgressModel::Stopped { at: clean, detail: log[clean]->Failed_0@ }
    } else {
        ProgressModel::Pending { next: clean }
    }
}

/// How far a plan got, in contracts.
pub enum ProgressModel {
    Completed,
    Stopped { at: int, detail: Seq<char> },
    Pending { next: int },
}

impl View for Progress {
    type V = ProgressModel;

    open spec fn view(&self) -> ProgressModel {
        match *self {
            Progress::Completed => ProgressModel::Completed,
            Progress::Stopped { at, detail } => ProgressModel::Stopped {
                at: at as int,
                detail: detail@,
            },
            Progress::Pending { next } => ProgressModel::Pending { next: next as int },
        }
    }
}

/// Reads a log against a plan: whether the plan is through, where it
/// stopped, or which action is due.
pub fn progress(plan: &Vec<Action>, log: &Vec<Outcome>) -> (state: Progress)
    ensures
        state@ == progress_of(plan@.len(), log@),
{
    let n = plan.len();
    let m = log.len();
    let mut i: usize = 0;
    while i < m && i < n
        invariant
            i <= m,
            i <= n,
            m == log@.len(),
            n == plan@.len(),
            forall|j: int| 0 <= j < i ==> log@[j] is Done,
        decreases m - i,
    {
        match &log[i] {
            Outcome::Failed(detail) => {
                proof {
                    lemma_first_failure_at(log@, i as int);
                }
                return Progress::Stopped { at: i, detail: detail.clone() };
            },
            Outcome::Done => {},
        }
        i += 1;
    }
    proof {
        lemma_first_failure(log@);
        if i == m {
            lemma_first_failure_at(log@, i as int);
        } else {
            if first_failure(log@) < i {
                assert(log@[first_failure(log@)] is Done);
            }
        }
    }
    if i == n {
        Progress::Completed
    } else {
        Progress::Pending { next: i }
    }
}

/// The action to perform next, if the plan goes on: none once an action has
/// failed or the plan is through. The action that is due is the one after
/// those that were performed, and each of those went well.
pub fn next_action(plan: &Vec<Action>, log: &Vec<Outcome>) -> (next: Option<usize>)
    ensures
        next is Some <==> progress_of(plan@.len(), log@) is Pending,
        next is Some <==> log@.len() < plan@.len() && forall|j: int|
            0 <= j < log@.len() ==> log@[j] is Done,
        next matches Some(i) ==> i == log@.len(),
{
    proof {
        lemma_first_failure(log@);
    }
    match progress(plan, log) {
        Progress::Pending { next } => Some(next),
        _ => None,
    }
}

} // verus!
