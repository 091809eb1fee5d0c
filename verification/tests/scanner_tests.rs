use git_batch::scanner::{ScanEntry, file_name, parent_dir, select_git_projects};

fn entry(path: &[u8], is_dir: bool) -> ScanEntry {
    ScanEntry { path: path.to_vec(), is_dir }
}

#[test]
fn file_name_takes_last_segment() {
    assert_eq!(file_name(&b"./a/b/.git".to_vec()), b".git".to_vec());
    assert_eq!(file_name(&b"plain".to_vec()), b"plain".to_vec());
}

#[test]
fn parent_dir_drops_last_segment() {
    assert_eq!(parent_dir(&b"./a/b/.git".to_vec()), b"./a/b".to_vec());
    assert_eq!(parent_dir(&b"plain".to_vec()), b"".to_vec());
}

#[test]
fn scanner_selects_parents_of_git_directories() {
    let entries = vec![
        entry(b".", true),
        entry(b"./a", true),
        entry(b"./a/.git", true),
        entry(b"./a/src", true),
        entry(b"./b/.git", false),
        entry(b"./c/x", true),
        entry(b"./c/x/.git", true),
        entry(b"./d/.gitignore", true),
    ];
    let roots = select_git_projects(&entries);
    assert_eq!(roots, vec![b"./a".to_vec(), b"./c/x".to_vec()]);
}

#[test]
fn scanner_returns_nothing_without_git_directories() {
    let entries = vec![entry(b".", true), entry(b"./a", true), entry(b"./a/file", false)];
    assert!(select_git_projects(&entries).is_empty());
}

#[test]
fn scanner_keeps_duplicate_parents_in_walk_order() {
    let entries = vec![entry(b"./a/.git", true), entry(b"./a/.git", true)];
    let roots = select_git_projects(&entries);
    assert_eq!(roots, vec![b"./a".to_vec(), b"./a".to_vec()]);
}
