use dots::error::{describe, SyncError};
use dots::path::FilePath;
use dots::report::{list, status, status_symbol};
use dots::roots::{dots_dir_in, get_dots_dir, get_home_dir, resolve_home};
use dots::status::{DotFile, FileStatus};

fn path(text: &str) -> FilePath {
    FilePath::parse(text)
}

#[test]
fn each_status_has_its_symbol() {
    assert_eq!(status_symbol(FileStatus::MISSING), "+");
    assert_eq!(status_symbol(FileStatus::MODIFIED), "M");
    assert_eq!(status_symbol(FileStatus::CLEAN), "=");
    assert_eq!(status_symbol(FileStatus::ERROR), "!");
}

#[test]
fn status_begins_with_the_legend() {
    let lines = status(&Vec::new());
    assert_eq!(lines, vec!["Legend: + missing | M modified | = clean | ! error".to_string()]);
}

#[test]
fn status_has_one_line_per_entry() {
    let entries = vec![
        DotFile { relative_path: path("a/b.conf"), status: FileStatus::MODIFIED },
        DotFile { relative_path: path(".bashrc"), status: FileStatus::MISSING },
        DotFile { relative_path: path("c"), status: FileStatus::CLEAN },
        DotFile { relative_path: path("d/e/f"), status: FileStatus::ERROR },
    ];
    let lines = status(&entries);
    assert_eq!(
        lines[1..].to_vec(),
        vec![
            "M a/b.conf".to_string(),
            "+ .bashrc".to_string(),
            "= c".to_string(),
            "! d/e/f".to_string(),
        ]
    );
    assert_eq!(lines.len(), 5);
}

#[test]
fn list_shows_relative_paths() {
    let files = vec![
        path("/home/alice/dots/a/b.conf"),
        path("/elsewhere/x"),
        path("/home/alice/dots/.bashrc"),
    ];
    assert_eq!(
        list(&path("/home/alice/dots"), &files),
        vec!["a/b.conf".to_string(), ".bashrc".to_string()]
    );
}

#[test]
fn list_of_an_empty_tree_is_empty() {
    assert!(list(&path("/home/alice/dots"), &Vec::new()).is_empty());
}

#[test]
fn every_error_has_words_of_its_own() {
    let words = vec![
        describe(&SyncError::NotFound),
        describe(&SyncError::OutsideHome),
        describe(&SyncError::ReadError("x".to_string())),
        describe(&SyncError::CopyError("x".to_string())),
        describe(&SyncError::NotTracked),
        describe(&SyncError::RemovalFailed("x".to_string())),
        describe(&SyncError::HomeUnresolved),
    ];
    assert_eq!(
        words,
        vec![
            "file not found".to_string(),
            "file must be inside HOME".to_string(),
            "read failed: x".to_string(),
            "copy failed: x".to_string(),
            "not managed".to_string(),
            "failed to remove: x".to_string(),
            "HOME not found".to_string(),
        ]
    );
}

#[test]
fn describe_carries_the_detail() {
    assert_eq!(
        describe(&SyncError::ReadError("permission denied".to_string())),
        "read failed: permission denied"
    );
}

#[test]
fn an_unknown_home_is_unresolved() {
    assert!(matches!(resolve_home(None), Err(SyncError::HomeUnresolved)));
}

#[test]
fn a_known_home_is_parsed() {
    let home = resolve_home(Some("/home/alice".to_string())).unwrap();
    assert!(home.absolute);
    assert_eq!(home.render(), "/home/alice");
}

#[test]
fn the_repository_lies_directly_below_home() {
    assert_eq!(dots_dir_in(&path("/home/alice")).render(), "/home/alice/dots");
    assert_eq!(dots_dir_in(&path("/")).render(), "/dots");
}

#[test]
fn the_roots_of_this_process_agree() {
    match (get_home_dir(), get_dots_dir()) {
        (Ok(home), Ok(dots_dir)) => {
            assert!(dots_dir.same_as(&dots_dir_in(&home)));
            assert_eq!(dots_dir.parts.last().unwrap(), "dots");
        }
        (Err(SyncError::HomeUnresolved), Err(SyncError::HomeUnresolved)) => {}
        other => panic!("unexpected {:?}", other),
    }
}
