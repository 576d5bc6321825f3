use rusty_sync::node::FileNode;
use rusty_sync::node::NodeKind;
use rusty_sync::node::SyncAction;

fn file(name: &str, rel: &str, size: Option<u64>, modified: Option<u64>, synced: Option<u64>) -> FileNode {
    FileNode {
        name: name.to_string(),
        kind: NodeKind::File,
        absolute_path: format!("/root/{}", rel),
        relative_path: rel.to_string(),
        children: None,
        repository_origin: None,
        size_bytes: size,
        modified_at: modified,
        content_hash: None,
        last_synced_at: synced,
        sync_session_id: Some("sync_1".to_string()),
        writer_id: Some("user@host".to_string()),
    }
}

#[test]
fn needs_sync_never_synced_file() {
    let f = file("a.txt", "a.txt", Some(10), Some(100), None);
    assert!(f.needs_sync());
}

#[test]
fn needs_sync_modified_after_sync() {
    let f = file("a.txt", "a.txt", Some(10), Some(200), Some(100));
    assert!(f.needs_sync());
}

#[test]
fn needs_sync_in_sync_file() {
    let f = file("a.txt", "a.txt", Some(10), Some(100), Some(100));
    assert!(!f.needs_sync());
    let older = file("a.txt", "a.txt", Some(10), Some(100), Some(150));
    assert!(!older.needs_sync());
}

#[test]
fn needs_sync_unknown_metadata_is_conservative() {
    let f = file("a.txt", "a.txt", None, None, None);
    assert!(!f.needs_sync());
    let g = file("a.txt", "a.txt", Some(10), None, Some(5));
    assert!(!g.needs_sync());
}

#[test]
fn needs_sync_excludes_snapshot_document() {
    let f = file(
        "rusty-sync-structure.json",
        "rusty-sync-structure.json",
        Some(10),
        Some(100),
        None,
    );
    assert!(!f.needs_sync());
}

#[test]
fn needs_sync_false_for_folders() {
    let mut d = file("dir", "dir", None, Some(100), None);
    d.kind = NodeKind::Folder;
    d.children = Some(vec![]);
    assert!(!d.needs_sync());
}

#[test]
fn is_modified_since_cases() {
    let f = file("a.txt", "a.txt", Some(10), Some(100), None);
    assert!(f.is_modified_since(99));
    assert!(!f.is_modified_since(100));
    let unknown = file("a.txt", "a.txt", Some(10), None, None);
    assert!(!unknown.is_modified_since(0));
}

#[test]
fn is_newer_than_cases() {
    let newer = file("a", "a", Some(1), Some(200), None);
    let older = file("a", "a", Some(1), Some(100), None);
    let unknown = file("a", "a", Some(1), None, None);
    assert!(newer.is_newer_than(&older));
    assert!(!older.is_newer_than(&newer));
    assert!(newer.is_newer_than(&unknown));
    assert!(!unknown.is_newer_than(&newer));
    assert!(!unknown.is_newer_than(&unknown));
}

#[test]
fn compare_for_sync_path_mismatch_is_no_action() {
    let a = file("a", "a", Some(1), Some(200), None);
    let b = file("b", "b", Some(2), Some(100), None);
    assert_eq!(a.compare_for_sync(&b), SyncAction::NoAction);
}

#[test]
fn compare_for_sync_size_difference_resolves_by_recency() {
    let local = file("a", "a", Some(20), Some(200), None);
    let remote = file("a", "a", Some(10), Some(100), None);
    assert_eq!(local.compare_for_sync(&remote), SyncAction::Upload);
    assert_eq!(remote.compare_for_sync(&local), SyncAction::Download);
    // An unset remote timestamp counts as older.
    let blind_remote = file("a", "a", Some(10), None, None);
    assert_eq!(local.compare_for_sync(&blind_remote), SyncAction::Upload);
}

#[test]
fn compare_for_sync_equal_sizes_compare_times() {
    let local = file("a", "a", Some(10), Some(200), None);
    let remote = file("a", "a", Some(10), Some(100), None);
    assert_eq!(local.compare_for_sync(&remote), SyncAction::Upload);
    assert_eq!(remote.compare_for_sync(&local), SyncAction::Download);
}

#[test]
fn compare_for_sync_antisymmetry_on_samples() {
    let cases = [
        (Some(10), Some(200), Some(10), Some(100)),
        (Some(20), Some(200), Some(10), Some(100)),
        (Some(10), Some(5), Some(20), None),
        (Some(7), None, Some(7), Some(3)),
    ];
    for (sa, ma, sb, mb) in cases {
        let a = file("a", "a", sa, ma, None);
        let b = file("a", "a", sb, mb, None);
        if a.compare_for_sync(&b) == SyncAction::Upload {
            assert_eq!(b.compare_for_sync(&a), SyncAction::Download);
        }
        if a.compare_for_sync(&b) == SyncAction::NoAction {
            assert_eq!(b.compare_for_sync(&a), SyncAction::NoAction);
        }
    }
}

#[test]
fn same_size_same_time_different_content_is_silently_in_sync() {
    // Content is never inspected: two files of one size and one
    // modification time compare as in sync even when their bytes differ.
    // This is the documented limitation of a metadata-only comparison.
    let local = file("a", "a", Some(10), Some(100), None);
    let remote = file("a", "a", Some(10), Some(100), None);
    assert_eq!(local.compare_for_sync(&remote), SyncAction::NoAction);
    assert_eq!(remote.compare_for_sync(&local), SyncAction::NoAction);
}

#[test]
fn test_count_items_simple() {
    // Simple test - we can't easily create FileNode instances in tests
    // due to the complex structure, so just test the logic
    assert_eq!(1 + 1, 2); // Placeholder test
}

#[test]
fn count_items_counts_every_node() {
    let mut root = file("root", ".", None, None, None);
    root.kind = NodeKind::Folder;
    root.children = Some(vec![
        file("a.txt", "a.txt", Some(1), Some(1), None),
        file("b.txt", "b.txt", Some(2), Some(2), None),
    ]);
    assert_eq!(rusty_sync::tree::count_items(&root), 3);
}
