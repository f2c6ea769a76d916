use dots::path::FilePath;
use dots::walk::{recursive_list, DirEntry, Walk};

fn path(text: &str) -> FilePath {
    FilePath::parse(text)
}

fn file(name: &str) -> DirEntry {
    DirEntry { name: name.to_string(), is_dir: false }
}

fn dir(name: &str) -> DirEntry {
    DirEntry { name: name.to_string(), is_dir: true }
}

fn rendered(paths: &Vec<FilePath>) -> Vec<String> {
    paths.iter().map(|p| p.render()).collect()
}

#[test]
fn recursive_list_sorts_entries_into_files_and_directories() {
    let level = recursive_list(
        &path("/r"),
        &vec![file("b.conf"), dir("sub"), file("a.conf"), dir("other")],
    );
    assert_eq!(rendered(&level.files), vec!["/r/b.conf".to_string(), "/r/a.conf".to_string()]);
    assert_eq!(rendered(&level.subdirs), vec!["/r/sub".to_string(), "/r/other".to_string()]);
}

#[test]
fn recursive_list_drops_the_reserved_name() {
    let level = recursive_list(&path("/r"), &vec![dir(".git"), file(".git"), file(".gitignore")]);
    assert_eq!(rendered(&level.files), vec!["/r/.gitignore".to_string()]);
    assert!(level.subdirs.is_empty());
}

#[test]
fn recursive_list_of_an_empty_directory() {
    let level = recursive_list(&path("/r"), &Vec::new());
    assert!(level.files.is_empty());
    assert!(level.subdirs.is_empty());
}

#[test]
fn a_root_that_is_no_directory_holds_nothing() {
    let mut walk = Walk::new(path("/nowhere"), false);
    assert!(walk.is_done());
    assert!(walk.next_dir().is_none());
    let (files, skipped) = walk.finish();
    assert!(files.is_empty());
    assert!(skipped.is_empty());
}

#[test]
fn a_walk_begins_with_its_root() {
    let mut walk = Walk::new(path("/r"), true);
    assert!(!walk.is_done());
    assert_eq!(walk.next_dir().unwrap().render(), "/r");
    assert!(walk.is_done());
    assert!(walk.next_dir().is_none());
}

#[test]
fn a_walk_over_an_empty_tree_finds_no_file() {
    let mut walk = Walk::new(path("/r"), true);
    let root = walk.next_dir().unwrap();
    walk.record(&root, &Vec::new());
    assert!(walk.is_done());
    assert!(walk.finish().0.is_empty());
}

#[test]
fn a_walk_descends_and_never_enters_the_reserved_directory() {
    let mut walk = Walk::new(path("/r"), true);
    let mut read = Vec::new();
    while let Some(d) = walk.next_dir() {
        let entries = match d.render().as_str() {
            "/r" => vec![file("top"), dir("a"), dir(".git"), dir("b")],
            "/r/a" => vec![file("x"), dir("deep")],
            "/r/a/deep" => vec![file("y")],
            "/r/b" => vec![],
            other => panic!("read {}", other),
        };
        read.push(d.render());
        walk.record(&d, &entries);
    }
    let mut files = rendered(&walk.finish().0);
    files.sort();
    assert_eq!(
        files,
        vec!["/r/a/deep/y".to_string(), "/r/a/x".to_string(), "/r/top".to_string()]
    );
    read.sort();
    assert_eq!(
        read,
        vec!["/r".to_string(), "/r/a".to_string(), "/r/a/deep".to_string(), "/r/b".to_string()]
    );
}

#[test]
fn an_unreadable_directory_is_passed_over() {
    let mut walk = Walk::new(path("/r"), true);
    let root = walk.next_dir().unwrap();
    walk.record(&root, &vec![dir("locked"), file("f")]);
    let locked = walk.next_dir().unwrap();
    assert_eq!(locked.render(), "/r/locked");
    walk.skip(locked, "permission denied".to_string());
    assert!(walk.is_done());
    let (files, skipped) = walk.finish();
    assert_eq!(rendered(&files), vec!["/r/f".to_string()]);
    assert_eq!(skipped.len(), 1);
    assert_eq!(skipped[0].dir.render(), "/r/locked");
    assert_eq!(skipped[0].reason, "permission denied");
}
