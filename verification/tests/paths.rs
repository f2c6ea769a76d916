use dots::path::{is_reserved, with_bak, FilePath};

fn path(text: &str) -> FilePath {
    FilePath::parse(text)
}

#[test]
fn with_bak_appends_to_the_last_component() {
    assert_eq!(with_bak(&path("a/b.conf")).render(), "a/b.conf.bak");
    assert_eq!(with_bak(&path("/home/alice/.bashrc")).render(), "/home/alice/.bashrc.bak");
}

#[test]
fn with_bak_keeps_an_existing_extension() {
    assert_eq!(with_bak(&path("archive.tar.gz")).render(), "archive.tar.gz.bak");
    assert_eq!(with_bak(&path("notes.bak")).render(), "notes.bak.bak");
}

#[test]
fn with_bak_of_a_path_without_components() {
    assert_eq!(with_bak(&path("")).render(), ".bak");
    assert_eq!(with_bak(&path("/")).render(), "/.bak");
}

#[test]
fn with_bak_leaves_its_argument_alone() {
    let given = path("a/b");
    let backup = with_bak(&given);
    assert_eq!(given.render(), "a/b");
    assert!(!backup.same_as(&given));
}

#[test]
fn parse_splits_on_separators() {
    let p = path("a/b/c.txt");
    assert!(!p.absolute);
    assert_eq!(p.parts, vec!["a".to_string(), "b".to_string(), "c.txt".to_string()]);
}

#[test]
fn parse_reads_a_leading_separator_as_the_root() {
    let p = path("/etc/hosts");
    assert!(p.absolute);
    assert_eq!(p.parts, vec!["etc".to_string(), "hosts".to_string()]);
}

#[test]
fn parse_drops_empty_names_and_single_dots() {
    let p = path("a//b/./c/");
    assert_eq!(p.parts, vec!["a".to_string(), "b".to_string(), "c".to_string()]);
    let q = path("./x");
    assert!(!q.absolute);
    assert_eq!(q.parts, vec!["x".to_string()]);
}

#[test]
fn parse_keeps_names_that_only_begin_with_a_dot() {
    let p = path(".config/../.git/..x");
    assert_eq!(
        p.parts,
        vec![".config".to_string(), "..".to_string(), ".git".to_string(), "..x".to_string()]
    );
}

#[test]
fn parse_of_empty_text_and_of_the_root() {
    let empty = path("");
    assert!(!empty.absolute);
    assert!(empty.parts.is_empty());
    let root = path("/");
    assert!(root.absolute);
    assert!(root.parts.is_empty());
}

#[test]
fn parse_handles_names_beyond_ascii() {
    let p = path("/home/zoë/α.conf");
    assert_eq!(p.parts, vec!["home".to_string(), "zoë".to_string(), "α.conf".to_string()]);
    assert_eq!(p.render(), "/home/zoë/α.conf");
}

#[test]
fn render_writes_the_components_back() {
    assert_eq!(path("a/b/c").render(), "a/b/c");
    assert_eq!(path("/a").render(), "/a");
    assert_eq!(path("/").render(), "/");
    assert_eq!(path("").render(), "");
    assert_eq!(path("a//b/").render(), "a/b");
}

#[test]
fn new_holds_the_given_components() {
    let p = FilePath::new(true, vec!["x".to_string(), "y".to_string()]);
    assert_eq!(p.render(), "/x/y");
    assert!(p.same_as(&path("/x/y")));
}

#[test]
fn join_continues_a_root_with_a_relative_path() {
    let joined = path("/home/alice").join(&path("a/b.conf"));
    assert_eq!(joined.render(), "/home/alice/a/b.conf");
    assert!(joined.absolute);
}

#[test]
fn join_with_an_absolute_path_gives_that_path() {
    let joined = path("/home/alice").join(&path("/etc/passwd"));
    assert_eq!(joined.render(), "/etc/passwd");
}

#[test]
fn join_with_an_empty_path_changes_nothing() {
    assert_eq!(path("/home/alice").join(&path("")).render(), "/home/alice");
    assert_eq!(path("").join(&path("a")).render(), "a");
}

#[test]
fn child_adds_one_component() {
    let c = path("/home/alice").child(&"dots".to_string());
    assert_eq!(c.render(), "/home/alice/dots");
}

#[test]
fn starts_with_compares_whole_components() {
    assert!(path("/home/alice/x").starts_with(&path("/home/alice")));
    assert!(path("/home/alice").starts_with(&path("/home/alice")));
    assert!(!path("/home/alice2/x").starts_with(&path("/home/alice")));
    assert!(!path("/home").starts_with(&path("/home/alice")));
    assert!(!path("home/alice/x").starts_with(&path("/home/alice")));
}

#[test]
fn strip_prefix_gives_the_relative_rest() {
    let rest = path("/home/alice/a/b.conf").strip_prefix(&path("/home/alice")).unwrap();
    assert!(!rest.absolute);
    assert_eq!(rest.render(), "a/b.conf");
}

#[test]
fn strip_prefix_of_the_root_itself_is_empty() {
    let rest = path("/home/alice").strip_prefix(&path("/home/alice")).unwrap();
    assert!(rest.parts.is_empty());
    assert!(!rest.absolute);
}

#[test]
fn strip_prefix_fails_outside_the_root() {
    assert!(path("/etc/hosts").strip_prefix(&path("/home/alice")).is_none());
    assert!(path("/home/alice2").strip_prefix(&path("/home/alice")).is_none());
}

#[test]
fn strip_undoes_join_and_join_undoes_strip() {
    let root = path("/home/alice/dots");
    let rel = path("a/b.conf");
    let full = root.join(&rel);
    let back = full.strip_prefix(&root).unwrap();
    assert!(back.same_as(&rel));
    assert!(root.join(&back).same_as(&full));
}

#[test]
fn parent_drops_the_last_component() {
    assert_eq!(path("/a/b/c").parent().unwrap().render(), "/a/b");
    assert_eq!(path("a").parent().unwrap().render(), "");
    assert_eq!(path("/a").parent().unwrap().render(), "/");
}

#[test]
fn parent_of_a_path_without_components_is_none() {
    assert!(path("/").parent().is_none());
    assert!(path("").parent().is_none());
}

#[test]
fn same_as_compares_components_and_root() {
    assert!(path("a/b").same_as(&path("a//b/")));
    assert!(!path("a/b").same_as(&path("/a/b")));
    assert!(!path("a/b").same_as(&path("a/c")));
    assert!(!path("a/b").same_as(&path("a")));
}

#[test]
fn clone_is_the_same_path() {
    let p = path("/x/y/z");
    let q = p.clone();
    assert!(p.same_as(&q));
    assert_eq!(q.render(), "/x/y/z");
}

#[test]
fn is_reserved_knows_one_name_only() {
    assert!(is_reserved(&".git".to_string()));
    assert!(!is_reserved(&".gitignore".to_string()));
    assert!(!is_reserved(&"git".to_string()));
    assert!(!is_reserved(&".GIT".to_string()));
    assert!(!is_reserved(&"".to_string()));
}

#[test]
fn parse_reads_back_what_render_wrote() {
    for text in [
        "",
        "/",
        "a",
        "/a",
        "a/b.conf",
        "/home/alice/.config/nvim/init.lua",
        "..",
        "../x",
        ".hidden",
        "with space/and.dots...",
    ] {
        let p = path(text);
        assert_eq!(p.render(), text);
        assert!(path(&p.render()).same_as(&p));
    }
}
