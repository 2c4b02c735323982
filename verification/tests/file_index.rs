use paloma_core::capability::file_search::is_excluded_dir;
use paloma_core::capability::file_search::{
    file_request, FileRequest, COPY_PATH_ACTION_LABEL, OPEN_ACTION_LABEL, OPEN_FOLDER_ACTION_LABEL,
};
use paloma_core::capability::Action;
use paloma_core::capability::file_index::{
    fresh_entries, known_children, remove_path, remove_subtree, stale_children,
};
use paloma_core::capability::file_search::FileEntry;

fn entry(name: &str, path: &str, is_dir: bool) -> FileEntry {
    FileEntry::new(name.to_string(), path.to_string(), is_dir)
}

fn paths(entries: &[FileEntry]) -> Vec<&str> {
    entries.iter().map(|e| e.path.as_str()).collect()
}

fn sample_index() -> Vec<FileEntry> {
    vec![
        entry("a", "/h/a", true),
        entry("b.txt", "/h/a/b.txt", false),
        entry("ab", "/h/ab", false),
        entry("c", "/h/a/c", true),
        entry("d.txt", "/h/a/c/d.txt", false),
        entry("x", "/h/x", false),
    ]
}

#[test]
fn remove_subtree_drops_whole_components_only() {
    let mut entries = sample_index();
    let removed = remove_subtree("/h/a", &mut entries);
    assert_eq!(paths(&entries), vec!["/h/ab", "/h/x"]);
    assert_eq!(removed, vec!["/h/a".to_string(), "/h/a/c".to_string()]);
}

#[test]
fn remove_subtree_of_unknown_path_keeps_everything() {
    let mut entries = sample_index();
    let removed = remove_subtree("/elsewhere", &mut entries);
    assert_eq!(entries.len(), 6);
    assert!(removed.is_empty());
}

#[test]
fn remove_path_drops_only_that_path() {
    let mut entries = sample_index();
    remove_path("/h/a/b.txt", &mut entries);
    assert_eq!(paths(&entries), vec!["/h/a", "/h/ab", "/h/a/c", "/h/a/c/d.txt", "/h/x"]);
}

#[test]
fn known_children_of_indexed_directory() {
    let entries = sample_index();
    assert_eq!(
        known_children("/h/a", "/h", &entries),
        Some(vec![("/h/a/b.txt".to_string(), false), ("/h/a/c".to_string(), true)])
    );
}

#[test]
fn known_children_of_home_even_when_not_indexed() {
    let entries = sample_index();
    assert_eq!(
        known_children("/h", "/h", &entries),
        Some(vec![
            ("/h/a".to_string(), true),
            ("/h/ab".to_string(), false),
            ("/h/x".to_string(), false),
        ])
    );
}

#[test]
fn changes_outside_the_index_are_ignored() {
    let entries = sample_index();
    assert_eq!(known_children("/", "/h", &entries), None);
    // a file is not a directory that was indexed
    assert_eq!(known_children("/h/x", "/h", &entries), None);
}

#[test]
fn listing_diff_finds_gone_and_retyped_children() {
    let known = vec![
        ("/h/a/x".to_string(), false),
        ("/h/a/y".to_string(), true),
        ("/h/a/z".to_string(), false),
    ];
    let current = vec![
        entry("x", "/h/a/x", false),
        entry("y", "/h/a/y", false),
        entry("w", "/h/a/w", true),
    ];
    assert_eq!(
        stale_children(&known, &current),
        vec![("/h/a/y".to_string(), true), ("/h/a/z".to_string(), false)]
    );
    let fresh = fresh_entries(&known, current);
    assert_eq!(paths(&fresh), vec!["/h/a/y", "/h/a/w"]);
    assert!(!fresh[0].is_dir);
    assert!(fresh[1].is_dir);
}

#[test]
fn unchanged_listing_changes_nothing_on_values() {
    let known = vec![("/h/a/x".to_string(), false), ("/h/a/y".to_string(), true)];
    let current = vec![entry("x", "/h/a/x", false), entry("y", "/h/a/y", true)];
    assert!(stale_children(&known, &current).is_empty());
    assert!(fresh_entries(&known, current).is_empty());
}

#[test]
fn excluded_directories_are_known_by_name() {
    assert!(is_excluded_dir("node_modules"));
    assert!(is_excluded_dir("__pycache__"));
    assert!(is_excluded_dir("lost+found"));
    assert!(!is_excluded_dir("node_module"));
    assert!(!is_excluded_dir("src"));
}

#[test]
fn file_actions_become_requests() {
    let action = |label: &str, params: Vec<&str>| Action {
        label: label.to_string(),
        params: params.into_iter().map(str::to_string).collect(),
        primary: false,
    };
    assert_eq!(file_request(action(OPEN_ACTION_LABEL, vec!["/h/a.txt"])), FileRequest::Open("/h/a.txt".to_string()));
    assert_eq!(file_request(action(OPEN_FOLDER_ACTION_LABEL, vec!["/h"])), FileRequest::Open("/h".to_string()));
    assert_eq!(file_request(action(COPY_PATH_ACTION_LABEL, vec!["/h/a.txt"])), FileRequest::Copy("/h/a.txt".to_string()));
    assert_eq!(file_request(action("Delete", vec!["/h/a.txt"])), FileRequest::Ignore);
    assert_eq!(file_request(action(OPEN_ACTION_LABEL, vec![])), FileRequest::Ignore);
}
