use rusty_sync::config::MinioConfig;
use rusty_sync::config::RustySyncConfig;
use rusty_sync::gitutil::GitIgnore;
use rusty_sync::node::FileNode;
use rusty_sync::node::NodeKind;
use rusty_sync::node::SyncAction;
use rusty_sync::paths::to_relative_path;
use rusty_sync::sync::SyncError;
use rusty_sync::sync::SyncManager;

fn file(rel: &str, size: Option<u64>, modified: Option<u64>, synced: Option<u64>) -> FileNode {
    FileNode {
        name: rel.to_string(),
        kind: NodeKind::File,
        absolute_path: format!("/root/{}", rel),
        relative_path: rel.to_string(),
        children: None,
        repository_origin: None,
        size_bytes: size,
        modified_at: modified,
        content_hash: None,
        last_synced_at: synced,
        sync_session_id: None,
        writer_id: None,
    }
}

fn folder(rel: &str, children: Vec<FileNode>) -> FileNode {
    FileNode {
        name: rel.to_string(),
        kind: NodeKind::Folder,
        absolute_path: format!("/root/{}", rel),
        relative_path: rel.to_string(),
        children: Some(children),
        repository_origin: None,
        size_bytes: None,
        modified_at: None,
        content_hash: None,
        last_synced_at: None,
        sync_session_id: None,
        writer_id: None,
    }
}

#[test]
fn files_needing_sync_lists_stale_files_in_tree_order() {
    let tree = folder(
        ".",
        vec![
            file("stale.txt", Some(1), Some(100), None),
            file("fresh.txt", Some(1), Some(100), Some(100)),
            file("rusty-sync-structure.json", Some(9), Some(100), None),
            file("changed.txt", Some(1), Some(200), Some(150)),
        ],
    );
    let pending = SyncManager::files_needing_sync(&tree);
    assert_eq!(pending, vec!["stale.txt".to_string(), "changed.txt".to_string()]);
}

#[test]
fn mark_file_as_synced_reports_a_missing_file() {
    let mut tree = folder(".", vec![file("a.txt", Some(1), Some(1), None)]);
    let r = SyncManager::mark_file_as_synced(&mut tree, &"missing.txt".to_string(), 5);
    assert!(r.is_err());
    assert!(r.unwrap_err().contains("missing.txt"));
    assert_eq!(tree.get_all_files()[0].last_synced_at, None);
}

#[test]
fn find_file_by_relative_path_walks_the_tree() {
    let tree = folder(
        ".",
        vec![folder("sub", vec![file("sub/deep.txt", Some(1), Some(1), None)])],
    );
    let found = SyncManager::find_file_by_relative_path(&tree, &"sub/deep.txt".to_string());
    assert_eq!(found.unwrap().name, "sub/deep.txt");
    assert!(SyncManager::find_file_by_relative_path(&tree, &"nowhere".to_string()).is_none());
}

#[test]
fn find_by_path_matches_absolute_paths() {
    let tree = folder(".", vec![file("a.txt", Some(1), Some(1), None)]);
    let hit = tree.find_by_path(&"/root/a.txt".to_string());
    assert_eq!(hit.unwrap().relative_path, "a.txt");
    assert!(tree.find_by_path(&"/root/b.txt".to_string()).is_none());
}

#[test]
fn plan_sync_diffs_the_two_trees_by_relative_path() {
    let local = folder(
        ".",
        vec![
            file("both_newer_here.txt", Some(4), Some(200), None),
            file("both_in_sync.txt", Some(4), Some(100), None),
            file("local_only.txt", Some(1), Some(50), None),
        ],
    );
    let remote = folder(
        ".",
        vec![
            file("both_newer_here.txt", Some(4), Some(100), None),
            file("both_in_sync.txt", Some(4), Some(100), None),
            file("remote_only.txt", Some(2), Some(60), None),
        ],
    );
    let plan = SyncManager::plan_sync(&local, &remote);
    assert_eq!(
        plan,
        vec![
            ("both_newer_here.txt".to_string(), SyncAction::Upload),
            ("local_only.txt".to_string(), SyncAction::Upload),
            ("remote_only.txt".to_string(), SyncAction::Download),
        ]
    );
}

#[test]
fn resolve_plan_entry_refuses_downloads_loudly() {
    let local = folder(".", vec![file("a.txt", Some(1), Some(1), None)]);
    match SyncManager::resolve_plan_entry(&local, &"a.txt".to_string(), SyncAction::Download) {
        Err(SyncError::NotImplementedError(msg)) => assert!(msg.contains("a.txt")),
        _ => panic!("the download direction must fail loudly"),
    }
    match SyncManager::resolve_plan_entry(&local, &"a.txt".to_string(), SyncAction::Upload) {
        Ok(Some(f)) => assert_eq!(f.relative_path, "a.txt"),
        _ => panic!("upload entries resolve to their file"),
    }
    match SyncManager::resolve_plan_entry(&local, &"a.txt".to_string(), SyncAction::NoAction) {
        Ok(None) => {}
        _ => panic!("in-sync entries resolve to no work"),
    }
}

#[test]
fn to_relative_path_strips_the_root_and_normalizes_separators() {
    assert_eq!(to_relative_path("/home/u/root/a/b.txt", "/home/u/root"), "a/b.txt");
    assert_eq!(to_relative_path("C:\\root\\a\\b.txt", "C:\\root"), "a/b.txt");
    assert_eq!(to_relative_path("/home/u/root", "/home/u/root"), "");
}

#[test]
fn to_relative_path_never_starts_with_a_separator() {
    // Doubled separators after the root are skipped entirely.
    assert_eq!(to_relative_path("/home/u/root//a.txt", "/home/u/root"), "a.txt");
    assert_eq!(to_relative_path("/home/u/root/\\a.txt", "/home/u/root"), "a.txt");
    assert_eq!(to_relative_path("/home/u/root//", "/home/u/root"), "");
}

#[test]
fn to_relative_path_falls_back_to_the_file_name() {
    assert_eq!(to_relative_path("/elsewhere/file.txt", "/home/u/root"), "file.txt");
    assert_eq!(to_relative_path("/home/u/rootless/x.txt", "/home/u/root"), "x.txt");
}

#[test]
fn config_selection_rules() {
    let mut cfg = RustySyncConfig::default();
    assert!(cfg.get_current_server().is_err());
    assert!(cfg.set_current_server(0).is_err());
    cfg.add_server(MinioConfig {
        endpoint_url: "http://localhost:9000".to_string(),
        access_key: "key".to_string(),
        secret_key: "secret".to_string(),
        alias: Some("local".to_string()),
    })
    .unwrap();
    cfg.add_server(MinioConfig {
        endpoint_url: "http://other:9000".to_string(),
        access_key: "key2".to_string(),
        secret_key: "secret2".to_string(),
        alias: None,
    })
    .unwrap();
    // With no selection the first server is active.
    assert_eq!(cfg.get_current_server().unwrap().endpoint_url, "http://localhost:9000");
    cfg.set_current_server(1).unwrap();
    assert_eq!(cfg.get_current_server().unwrap().endpoint_url, "http://other:9000");
    assert!(cfg.set_current_server(2).is_err());
    assert_eq!(cfg.get_current_server().unwrap().endpoint_url, "http://other:9000");
}

#[test]
fn git_ignore_remembers_repository_roots() {
    let mut ignore = GitIgnore::new();
    assert!(ignore.note_directory(&"/root/plain".to_string(), false));
    assert!(ignore.ignored_paths.is_empty());
    assert!(!ignore.note_directory(&"/root/repo".to_string(), true));
    assert_eq!(ignore.ignored_paths, vec!["/root/repo".to_string()]);
    // A path already skipped is never descended into again.
    assert!(!ignore.note_directory(&"/root/repo".to_string(), false));
    assert_eq!(ignore.ignored_paths.len(), 1);
}
