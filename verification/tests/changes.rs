use diffpatch::changes::{
    read_changes, read_diff_paths, ChangeKind, Changes, DetectError, Kind, PathState,
};
use diffpatch::paths::join;

fn strings(paths: &[&str]) -> Vec<String> {
    paths.iter().map(|p| p.to_string()).collect()
}

fn listed(changes: &Changes) -> Vec<(Kind, String)> {
    changes.iter().map(|c| (c.kind(), c.inner().to_string())).collect()
}

#[test]
fn paths_are_parted_in_three() {
    let c = Changes::detect(
        "orig",
        "mod",
        &strings(&["a.txt", "b.txt", "c.txt"]),
        &strings(&["b.txt", "c.txt", "d.txt"]),
    );
    assert_eq!(
        listed(&c),
        vec![
            (Kind::Modified, "b.txt".to_string()),
            (Kind::Modified, "c.txt".to_string()),
            (Kind::Removed, "a.txt".to_string()),
            (Kind::Added, "d.txt".to_string()),
        ]
    );
}

#[test]
fn a_new_file_is_added_beside_a_modified_one() {
    let c = Changes::detect("orig", "mod", &strings(&["a.txt"]), &strings(&["a.txt", "b.txt"]));
    assert_eq!(
        listed(&c),
        vec![(Kind::Modified, "a.txt".to_string()), (Kind::Added, "b.txt".to_string())]
    );
}

#[test]
fn paths_come_sorted_and_once() {
    let c = Changes::detect(
        "orig",
        "mod",
        &strings(&["z", "m", "a", "m", "z"]),
        &strings(&["q", "m", "b", "q"]),
    );
    assert_eq!(
        listed(&c),
        vec![
            (Kind::Modified, "m".to_string()),
            (Kind::Removed, "a".to_string()),
            (Kind::Removed, "z".to_string()),
            (Kind::Added, "b".to_string()),
            (Kind::Added, "q".to_string()),
        ]
    );
}

#[test]
fn a_directory_stands_before_its_longer_named_neighbour() {
    let c = Changes::detect("o", "m", &strings(&["a-b/x", "a/x", "a", "a.b"]), &strings(&[]));
    assert_eq!(
        listed(&c),
        vec![
            (Kind::Removed, "a".to_string()),
            (Kind::Removed, "a/x".to_string()),
            (Kind::Removed, "a-b/x".to_string()),
            (Kind::Removed, "a.b".to_string()),
        ]
    );
}

#[test]
fn equal_trees_change_nothing_but_content() {
    let c = Changes::detect("o", "m", &strings(&["x", "y"]), &strings(&["y", "x"]));
    assert_eq!(
        listed(&c),
        vec![(Kind::Modified, "x".to_string()), (Kind::Modified, "y".to_string())]
    );
    let c = Changes::detect("o", "m", &strings(&[]), &strings(&[]));
    assert_eq!(c.changes.len(), 0);
    assert_eq!(c.iter().count(), 0);
}

#[test]
fn files_stand_below_their_trees() {
    let c = Changes::detect("/tmp/orig", "/tmp/mod/", &strings(&["a"]), &strings(&["a", "b"]));
    assert_eq!(c.original_path("dir/a.txt"), "/tmp/orig/dir/a.txt");
    assert_eq!(c.modified_path("dir/a.txt"), "/tmp/mod/dir/a.txt");
    assert_eq!(c.original_path("/abs"), "/abs");
    let modified = ChangeKind::Modified("a".to_string());
    assert_eq!(
        modified.actual(&c),
        (Some("/tmp/orig/a".to_string()), Some("/tmp/mod/a".to_string()))
    );
    let added = ChangeKind::Added("b".to_string());
    assert_eq!(added.actual(&c), (None, Some("/tmp/mod/b".to_string())));
    let removed = ChangeKind::Removed("c".to_string());
    assert_eq!(removed.actual(&c), (Some("/tmp/orig/c".to_string()), None));
    assert_eq!(removed.inner(), "c");
    assert_eq!(removed.kind(), Kind::Removed);
}

#[test]
fn join_puts_a_separator_where_one_is_missing() {
    assert_eq!(join("a", "b"), "a/b");
    assert_eq!(join("a/", "b"), "a/b");
    assert_eq!(join("", "b"), "b");
    assert_eq!(join("a", "/b"), "/b");
    assert_eq!(join("a", ""), "a/");
}

#[test]
fn only_two_directories_are_compared() {
    assert!(read_changes("o", PathState::Directory, "m", PathState::Directory).is_ok());
    match read_changes("o", PathState::Missing, "m", PathState::Missing) {
        Err(DetectError::NotFound(p)) => assert_eq!(p, "o"),
        _ => panic!("the original path is missing"),
    }
    match read_changes("o", PathState::File, "m", PathState::Missing) {
        Err(DetectError::NotFound(p)) => assert_eq!(p, "m"),
        _ => panic!("the modified path is missing"),
    }
    match read_changes("o", PathState::File, "m", PathState::File) {
        Err(DetectError::FilesNotSupported) => {}
        _ => panic!("two files are not compared"),
    }
    match read_changes("o", PathState::File, "m", PathState::Directory) {
        Err(DetectError::Mixed(a, b)) => {
            assert_eq!(a, "o");
            assert_eq!(b, "m");
        }
        _ => panic!("a file and a directory are not compared"),
    }
    match read_changes("o", PathState::Directory, "m", PathState::File) {
        Err(DetectError::Mixed(_, _)) => {}
        _ => panic!("a directory and a file are not compared"),
    }
}

#[test]
fn errors_say_what_is_wrong() {
    assert_eq!(
        DetectError::NotFound("o".to_string()).message(),
        "o: no such file or directory"
    );
    assert_eq!(DetectError::FilesNotSupported.message(), "Diffing files is not implemented yet");
    assert_eq!(
        DetectError::Mixed("o".to_string(), "m".to_string()).message(),
        "Cannot diffpatch mix of path and directory o and m"
    );
    assert_eq!(DetectError::Symlink.message(), "symlinks are not supported yet");
}

#[test]
fn walking_keeps_files_only() {
    assert!(matches!(read_diff_paths("a.txt", false, false), Ok(true)));
    assert!(matches!(read_diff_paths("dir", true, false), Ok(false)));
    assert!(matches!(read_diff_paths("JJ-INSTRUCTIONS", false, false), Ok(false)));
    assert!(matches!(read_diff_paths("JJ-INSTRUCTIONS.txt", false, false), Ok(true)));
    assert!(matches!(read_diff_paths("link", false, true), Err(DetectError::Symlink)));
    assert!(matches!(read_diff_paths("link", true, true), Err(DetectError::Symlink)));
}
