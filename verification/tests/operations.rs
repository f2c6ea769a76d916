use dots::action::{next_action, progress, Action, Outcome, Progress};
use dots::error::SyncError;
use dots::ops::{
    apply, init, plan_transfers, remove_result, summarize, sync, transfer_result, DirCreation,
    Direction, Summary, Transfer,
};
use dots::path::FilePath;
use dots::status::{DotFile, FileStatus};

fn path(text: &str) -> FilePath {
    FilePath::parse(text)
}

fn entry(rel: &str, status: FileStatus) -> DotFile {
    DotFile { relative_path: path(rel), status }
}

fn show(action: &Action) -> String {
    match action {
        Action::CreateDirs(dir) => format!("mkdir {}", dir.render()),
        Action::Copy { from, to } => format!("copy {} -> {}", from.render(), to.render()),
        Action::RemoveFile(file) => format!("rm {}", file.render()),
        Action::RemoveDirIfEmpty(dir) => format!("rmdir {}", dir.render()),
    }
}

fn show_all(plan: &Vec<Action>) -> Vec<String> {
    plan.iter().map(show).collect()
}

fn all_statuses() -> Vec<DotFile> {
    vec![
        entry("missing", FileStatus::MISSING),
        entry("dir/modified", FileStatus::MODIFIED),
        entry("clean", FileStatus::CLEAN),
        entry("error", FileStatus::ERROR),
    ]
}

fn failed(words: &str) -> Outcome {
    Outcome::Failed(words.to_string())
}

fn copy_plan() -> Vec<Action> {
    vec![
        Action::Copy { from: path("/h/x"), to: path("/h/x.bak") },
        Action::CreateDirs(path("/h")),
        Action::Copy { from: path("/d/x"), to: path("/h/x") },
    ]
}

#[test]
fn apply_takes_missing_and_modified_entries() {
    let transfers = apply(&path("/home/alice/dots"), &path("/home/alice"), &all_statuses());
    let got: Vec<String> = transfers.iter().map(|t| t.relative_path.render()).collect();
    assert_eq!(got, vec!["missing".to_string(), "dir/modified".to_string()]);
}

#[test]
fn apply_goes_from_the_repository_to_home_with_a_backup_beside_the_target() {
    let transfers = apply(&path("/home/alice/dots"), &path("/home/alice"), &all_statuses());
    let t = &transfers[1];
    assert_eq!(t.source.render(), "/home/alice/dots/dir/modified");
    assert_eq!(t.target.render(), "/home/alice/dir/modified");
    assert_eq!(t.backup.as_ref().unwrap().render(), "/home/alice/dir/modified.bak");
}

#[test]
fn apply_of_no_entries_plans_nothing() {
    let transfers = apply(&path("/home/alice/dots"), &path("/home/alice"), &Vec::new());
    assert!(transfers.is_empty());
    assert_eq!(summarize(&transfers), Summary::NothingToDo);
}

#[test]
fn sync_takes_modified_entries_only() {
    let transfers = sync(&path("/home/alice/dots"), &path("/home/alice"), &all_statuses());
    let got: Vec<String> = transfers.iter().map(|t| t.relative_path.render()).collect();
    assert_eq!(got, vec!["dir/modified".to_string()]);
}

#[test]
fn sync_goes_from_home_to_the_repository_without_a_backup() {
    let transfers = sync(&path("/home/alice/dots"), &path("/home/alice"), &all_statuses());
    let t = &transfers[0];
    assert_eq!(t.source.render(), "/home/alice/dir/modified");
    assert_eq!(t.target.render(), "/home/alice/dots/dir/modified");
    assert!(t.backup.is_none());
    assert_eq!(
        show_all(&t.steps(true)),
        vec![
            "mkdir /home/alice/dots/dir".to_string(),
            "copy /home/alice/dir/modified -> /home/alice/dots/dir/modified".to_string(),
        ]
    );
}

#[test]
fn sync_without_modified_entries_has_nothing_to_do() {
    let entries = vec![
        entry("a", FileStatus::MISSING),
        entry("b", FileStatus::CLEAN),
        entry("c", FileStatus::ERROR),
    ];
    let transfers = sync(&path("/home/alice/dots"), &path("/home/alice"), &entries);
    assert!(transfers.is_empty());
    assert_eq!(summarize(&transfers), Summary::NothingToDo);
}

#[test]
fn a_pass_with_a_match_is_completed() {
    let transfers = sync(&path("/home/alice/dots"), &path("/home/alice"), &all_statuses());
    assert_eq!(summarize(&transfers), Summary::Completed);
}

#[test]
fn plan_transfers_keeps_the_order_of_the_entries() {
    let entries = vec![
        entry("z", FileStatus::MODIFIED),
        entry("a", FileStatus::MISSING),
        entry("z", FileStatus::MODIFIED),
    ];
    let to_home = plan_transfers(Direction::ToHome, &path("/d"), &path("/h"), &entries);
    let got: Vec<String> = to_home.iter().map(|t| t.target.render()).collect();
    assert_eq!(got, vec!["/h/z".to_string(), "/h/a".to_string(), "/h/z".to_string()]);
    let to_repo = plan_transfers(Direction::ToRepository, &path("/d"), &path("/h"), &entries);
    let got: Vec<String> = to_repo.iter().map(|t| t.target.render()).collect();
    assert_eq!(got, vec!["/d/z".to_string(), "/d/z".to_string()]);
}

#[test]
fn steps_back_up_an_existing_target_first() {
    let transfers = apply(&path("/d"), &path("/h"), &vec![entry("a/b.conf", FileStatus::MODIFIED)]);
    assert_eq!(
        show_all(&transfers[0].steps(true)),
        vec![
            "copy /h/a/b.conf -> /h/a/b.conf.bak".to_string(),
            "mkdir /h/a".to_string(),
            "copy /d/a/b.conf -> /h/a/b.conf".to_string(),
        ]
    );
}

#[test]
fn steps_skip_the_backup_where_nothing_exists() {
    let transfers = apply(&path("/d"), &path("/h"), &vec![entry("a/b.conf", FileStatus::MISSING)]);
    assert_eq!(
        show_all(&transfers[0].steps(false)),
        vec!["mkdir /h/a".to_string(), "copy /d/a/b.conf -> /h/a/b.conf".to_string()]
    );
}

#[test]
fn steps_go_by_the_disk_not_by_the_status() {
    let transfers = apply(&path("/d"), &path("/h"), &vec![entry("f", FileStatus::MISSING)]);
    assert_eq!(show_all(&transfers[0].steps(true))[0], "copy /h/f -> /h/f.bak");
}

#[test]
fn steps_of_a_target_without_a_parent() {
    let t = Transfer {
        relative_path: path(""),
        source: path("/d"),
        target: path(""),
        backup: None,
    };
    assert_eq!(show_all(&t.steps(true)), vec!["copy /d -> ".to_string()]);
}

#[test]
fn backup_written_needs_an_existing_target_and_a_first_success() {
    let transfers = apply(&path("/d"), &path("/h"), &vec![entry("f", FileStatus::MODIFIED)]);
    let t = &transfers[0];
    assert_eq!(t.backup_written(true, &vec![Outcome::Done]).unwrap().render(), "/h/f.bak");
    assert!(t.backup_written(true, &vec![failed("disk full")]).is_none());
    assert!(t.backup_written(true, &Vec::new()).is_none());
    assert!(t.backup_written(false, &vec![Outcome::Done]).is_none());
    let back = sync(&path("/d"), &path("/h"), &vec![entry("f", FileStatus::MODIFIED)]);
    assert!(back[0].backup_written(true, &vec![Outcome::Done]).is_none());
}

#[test]
fn next_action_walks_a_plan_in_order() {
    let plan = copy_plan();
    assert_eq!(next_action(&plan, &Vec::new()), Some(0));
    assert_eq!(next_action(&plan, &vec![Outcome::Done]), Some(1));
    assert_eq!(next_action(&plan, &vec![Outcome::Done, Outcome::Done]), Some(2));
    assert_eq!(next_action(&plan, &vec![Outcome::Done, Outcome::Done, Outcome::Done]), None);
}

#[test]
fn next_action_stops_at_the_first_failure() {
    let plan = copy_plan();
    assert_eq!(next_action(&plan, &vec![failed("no space")]), None);
    assert_eq!(next_action(&plan, &vec![Outcome::Done, failed("denied")]), None);
}

#[test]
fn next_action_of_an_empty_plan_is_none() {
    assert_eq!(next_action(&Vec::new(), &Vec::new()), None);
}

#[test]
fn progress_reads_a_log() {
    let plan = copy_plan();
    assert!(matches!(progress(&plan, &Vec::new()), Progress::Pending { next: 0 }));
    assert!(matches!(progress(&plan, &vec![Outcome::Done]), Progress::Pending { next: 1 }));
    assert!(matches!(
        progress(&plan, &vec![Outcome::Done, Outcome::Done, Outcome::Done]),
        Progress::Completed
    ));
    match progress(&plan, &vec![Outcome::Done, failed("denied")]) {
        Progress::Stopped { at, detail } => {
            assert_eq!(at, 1);
            assert_eq!(detail, "denied");
        }
        other => panic!("unexpected {:?}", other),
    }
    assert!(matches!(progress(&Vec::new(), &Vec::new()), Progress::Completed));
}

#[test]
fn progress_sees_only_the_first_failure() {
    let plan = copy_plan();
    match progress(&plan, &vec![failed("first"), failed("second"), Outcome::Done]) {
        Progress::Stopped { at, detail } => {
            assert_eq!(at, 0);
            assert_eq!(detail, "first");
        }
        other => panic!("unexpected {:?}", other),
    }
}

#[test]
fn transfer_result_follows_the_log() {
    let plan = copy_plan();
    assert!(transfer_result(&plan, &Vec::new()).is_none());
    assert!(transfer_result(&plan, &vec![Outcome::Done, Outcome::Done]).is_none());
    assert!(matches!(
        transfer_result(&plan, &vec![Outcome::Done, Outcome::Done, Outcome::Done]),
        Some(Ok(()))
    ));
    match transfer_result(&plan, &vec![Outcome::Done, failed("read-only file system")]) {
        Some(Err(SyncError::CopyError(detail))) => assert_eq!(detail, "read-only file system"),
        other => panic!("unexpected {:?}", other),
    }
}

#[test]
fn remove_result_fails_only_when_the_file_stays() {
    let plan = vec![
        Action::RemoveFile(path("/d/a/b")),
        Action::RemoveDirIfEmpty(path("/d/a")),
    ];
    assert!(remove_result(&plan, &Vec::new()).is_none());
    assert!(remove_result(&plan, &vec![Outcome::Done]).is_none());
    assert!(matches!(remove_result(&plan, &vec![Outcome::Done, Outcome::Done]), Some(Ok(()))));
    assert!(matches!(
        remove_result(&plan, &vec![Outcome::Done, failed("not empty")]),
        Some(Ok(()))
    ));
    match remove_result(&plan, &vec![failed("permission denied")]) {
        Some(Err(SyncError::RemovalFailed(detail))) => assert_eq!(detail, "permission denied"),
        other => panic!("unexpected {:?}", other),
    }
}

#[test]
fn init_goes_on_after_creating_or_finding_the_directory() {
    assert!(init(DirCreation::Created));
    assert!(init(DirCreation::AlreadyExists));
}

#[test]
fn init_stops_on_every_other_outcome() {
    assert!(!init(DirCreation::PermissionDenied));
    assert!(!init(DirCreation::Failed));
}
