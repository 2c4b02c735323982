use paloma_core::capability::file_search::{
    build_item, display_parent, icon_name, rank, FileEntry, COPY_PATH_ACTION_LABEL, FALLBACK_ICON,
    FOLDER_ICON, MAX_RESULTS, OPEN_ACTION_LABEL, OPEN_FOLDER_ACTION_LABEL,
};

fn entry(name: &str, path: &str, is_dir: bool) -> FileEntry {
    FileEntry::new(name.to_string(), path.to_string(), is_dir)
}

#[test]
fn rank_matches_fuzzily() {
    let entries = vec![
        entry("Cargo.toml", "/home/u/proj/Cargo.toml", false),
        entry("photo.png", "/home/u/photo.png", false),
    ];

    let ranked = rank("cargtom", &entries);

    assert_eq!(ranked.len(), 1);
    assert_eq!(ranked[0].name, "Cargo.toml");
}

#[test]
fn rank_prefers_shallower_paths_on_ties() {
    let entries = vec![
        entry("notes.md", "/home/u/a/b/c/notes.md", false),
        entry("notes.md", "/home/u/notes.md", false),
    ];

    let ranked = rank("notes", &entries);

    assert_eq!(ranked[0].path, "/home/u/notes.md");
}

#[test]
fn rank_rejects_short_queries() {
    let entries = vec![entry("a.txt", "/home/u/a.txt", false)];

    assert!(rank("a", &entries).is_empty());
}

#[test]
fn rank_caps_results() {
    let entries: Vec<FileEntry> = (0..100)
        .map(|i| entry("match.txt", &format!("/home/u/{i}/match.txt"), false))
        .collect();

    assert_eq!(rank("match", &entries).len(), MAX_RESULTS);
}

#[test]
fn files_offer_open_folder_action() {
    let item = build_item("/home/u", &entry("a.txt", "/home/u/docs/a.txt", false));

    let labels: Vec<_> = item.actions.iter().map(|a| a.label.as_str()).collect();
    assert_eq!(
        labels,
        [
            OPEN_ACTION_LABEL,
            OPEN_FOLDER_ACTION_LABEL,
            COPY_PATH_ACTION_LABEL
        ]
    );
    assert_eq!(item.actions[1].params, vec!["/home/u/docs".to_string()]);
}

#[test]
fn directories_omit_open_folder_action() {
    let item = build_item("/home/u", &entry("docs", "/home/u/docs", true));

    let labels: Vec<_> = item.actions.iter().map(|a| a.label.as_str()).collect();
    assert_eq!(labels, [OPEN_ACTION_LABEL, COPY_PATH_ACTION_LABEL]);
}

#[test]
fn display_parent_abbreviates_home() {
    let home = "/home/u";

    assert_eq!(display_parent(home, "/home/u/docs/report.txt"), "~/docs");
    assert_eq!(display_parent(home, "/home/u/report.txt"), "~");
}

#[test]
fn display_parent_keeps_paths_outside_home() {
    assert_eq!(display_parent("/home/u", "/etc/hosts"), "/etc");
    assert_eq!(display_parent("/home/u", "/home/user/x"), "/home/user");
}

#[test]
fn icon_name_maps_mime_types() {
    assert_eq!(icon_name(&entry("a.png", "/home/u/a.png", false)), "image-png");
    assert_eq!(icon_name(&entry("docs", "/home/u/docs", true)), FOLDER_ICON);
    assert_eq!(icon_name(&entry("noext", "/home/u/noext", false)), FALLBACK_ICON);
}

#[test]
fn rank_orders_by_score_then_depth_then_name() {
    let entries = vec![
        entry("b.md", "/x/y/b.md", false),
        entry("a.md", "/x/y/a.md", false),
        entry("a.md", "/x/a.md", false),
    ];
    let ranked = rank("md", &entries);
    assert_eq!(ranked.len(), 3);
    assert_eq!(ranked[0].path, "/x/a.md");
    assert_eq!(ranked[1].path, "/x/y/a.md");
    assert_eq!(ranked[2].path, "/x/y/b.md");
    assert_eq!(entries[2].depth, 3);
}

#[test]
fn long_queries_still_rank() {
    let entries = vec![entry("notes.txt", "/home/u/notes.txt", false)];
    let ranked = rank(&"note ".repeat(70000), &entries);
    assert_eq!(ranked.len(), 1);
}
