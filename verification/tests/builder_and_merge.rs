use rusty_sync::builder::BuildContext;
use rusty_sync::builder::FsEntry;
use rusty_sync::builder::FsFolder;
use rusty_sync::builder::ReadFileTree;
use rusty_sync::builder::generate_sync_id;
use rusty_sync::node::FileNode;
use rusty_sync::sync::SyncManager;

fn ctx(now: u64, session: &str) -> BuildContext {
    BuildContext {
        writer_id: "user@host".to_string(),
        session_id: session.to_string(),
        now,
    }
}

fn one_file_listing(size: u64, modified: u64) -> FsFolder {
    FsFolder {
        name: "root".to_string(),
        is_repository_root: false,
        repository_origin: None,
        entries: vec![FsEntry::File {
            name: "hello.txt".to_string(),
            size_bytes: Some(size),
            modified_at: Some(modified),
        }],
    }
}

fn root_path() -> String {
    "/home/user/root".to_string()
}

#[test]
fn fresh_scan_needs_sync_and_upload_clears_it() {
    let c = ctx(1000, "sync_1000");
    let mut tree = ReadFileTree::generate_tree(&one_file_listing(10, 900), &root_path(), &c);
    {
        let files = tree.get_all_files();
        assert_eq!(files.len(), 1);
        assert_eq!(files[0].relative_path, "hello.txt");
        assert_eq!(files[0].size_bytes, Some(10));
        assert!(files[0].needs_sync(), "a never-synced file must need sync");
    }
    // A confirmed upload marks exactly this file in the live tree.
    let marked = SyncManager::mark_file_as_synced(&mut tree, &"hello.txt".to_string(), 1001);
    assert!(marked.is_ok());
    let files = tree.get_all_files();
    assert_eq!(files[0].last_synced_at, Some(1001));
    assert!(!files[0].needs_sync(), "an uploaded, unmodified file is in sync");
}

#[test]
fn rewriting_content_makes_the_file_stale_again() {
    let c1 = ctx(1000, "sync_1000");
    let mut first = ReadFileTree::generate_tree(&one_file_listing(10, 900), &root_path(), &c1);
    SyncManager::mark_file_as_synced(&mut first, &"hello.txt".to_string(), 1001).unwrap();
    // The file's content is rewritten, bumping its modification time.
    let c2 = ctx(2000, "sync_2000");
    let rescanned = ReadFileTree::generate_tree_preserving_sync_data(
        &one_file_listing(38, 1002),
        &root_path(),
        &c2,
        Some(&first),
    );
    let files = rescanned.get_all_files();
    assert_eq!(files[0].last_synced_at, None, "changed content drops the old sync mark");
    assert!(files[0].needs_sync(), "a modified file needs sync again");
}

#[test]
fn unchanged_file_keeps_its_sync_metadata_across_scans() {
    let c1 = ctx(1000, "sync_1000");
    let mut first = ReadFileTree::generate_tree(&one_file_listing(10, 900), &root_path(), &c1);
    SyncManager::mark_file_as_synced(&mut first, &"hello.txt".to_string(), 1001).unwrap();
    let c2 = ctx(2000, "sync_2000");
    let rescanned = ReadFileTree::generate_tree_preserving_sync_data(
        &one_file_listing(10, 900),
        &root_path(),
        &c2,
        Some(&first),
    );
    let files = rescanned.get_all_files();
    assert_eq!(files[0].last_synced_at, Some(1001));
    assert_eq!(files[0].sync_session_id, Some("sync_1000".to_string()));
    assert!(!files[0].needs_sync());
}

#[test]
fn merge_of_two_fresh_scans_is_a_no_op_on_sync_times() {
    let a = ReadFileTree::generate_tree(&one_file_listing(10, 900), &root_path(), &ctx(1000, "sync_1000"));
    let b = ReadFileTree::generate_tree(&one_file_listing(10, 900), &root_path(), &ctx(1005, "sync_1005"));
    let merged_ab = ReadFileTree::generate_tree_preserving_sync_data(
        &one_file_listing(10, 900),
        &root_path(),
        &ctx(1000, "sync_1000"),
        Some(&b),
    );
    let merged_ba = ReadFileTree::generate_tree_preserving_sync_data(
        &one_file_listing(10, 900),
        &root_path(),
        &ctx(1005, "sync_1005"),
        Some(&a),
    );
    let fa: Vec<Option<u64>> = a.get_all_files().iter().map(|f| f.last_synced_at).collect();
    let fab: Vec<Option<u64>> = merged_ab.get_all_files().iter().map(|f| f.last_synced_at).collect();
    let fba: Vec<Option<u64>> = merged_ba.get_all_files().iter().map(|f| f.last_synced_at).collect();
    assert_eq!(fab, fa);
    assert_eq!(fba, fa);
}

#[test]
fn repository_root_is_a_childless_folder_with_its_origin() {
    let listing = FsFolder {
        name: "root".to_string(),
        is_repository_root: false,
        repository_origin: None,
        entries: vec![
            FsEntry::Folder(FsFolder {
                name: "project".to_string(),
                is_repository_root: true,
                repository_origin: Some("https://example.com/project.git".to_string()),
                entries: vec![FsEntry::File {
                    name: "inner.rs".to_string(),
                    size_bytes: Some(5),
                    modified_at: Some(1),
                }],
            }),
            FsEntry::File {
                name: "notes.txt".to_string(),
                size_bytes: Some(3),
                modified_at: Some(2),
            },
        ],
    };
    let tree = ReadFileTree::generate_tree(&listing, &root_path(), &ctx(1000, "sync_1000"));
    let children = tree.children.as_ref().unwrap();
    let repo = &children[0];
    assert!(repo.is_folder());
    assert_eq!(repo.repository_origin, Some("https://example.com/project.git".to_string()));
    assert!(repo.children.is_none(), "the builder never descends into a repository root");
    // Nothing under the repository ever shows up among the files.
    let files: Vec<&FileNode> = tree.get_all_files();
    assert_eq!(files.len(), 1);
    assert_eq!(files[0].relative_path, "notes.txt");
}

#[test]
fn nested_relative_paths_are_root_anchored() {
    let listing = FsFolder {
        name: "root".to_string(),
        is_repository_root: false,
        repository_origin: None,
        entries: vec![FsEntry::Folder(FsFolder {
            name: "docs".to_string(),
            is_repository_root: false,
            repository_origin: None,
            entries: vec![FsEntry::File {
                name: "a.md".to_string(),
                size_bytes: Some(1),
                modified_at: Some(1),
            }],
        })],
    };
    let tree = ReadFileTree::generate_tree(&listing, &root_path(), &ctx(1000, "sync_1000"));
    assert_eq!(tree.relative_path, ".");
    let files = tree.get_all_files();
    assert_eq!(files[0].relative_path, "docs/a.md");
    assert_eq!(files[0].absolute_path, "/home/user/root/docs/a.md");
    assert_eq!(files[0].get_cross_platform_path(), "docs/a.md");
}

#[test]
fn merge_neither_resurrects_nor_errors_on_divergent_shapes() {
    // The snapshot knows a file that has since been deleted on disk …
    let two = FsFolder {
        name: "root".to_string(),
        is_repository_root: false,
        repository_origin: None,
        entries: vec![
            FsEntry::File { name: "keep.txt".to_string(), size_bytes: Some(1), modified_at: Some(1) },
            FsEntry::File { name: "gone.txt".to_string(), size_bytes: Some(2), modified_at: Some(2) },
        ],
    };
    let one = FsFolder {
        name: "root".to_string(),
        is_repository_root: false,
        repository_origin: None,
        entries: vec![FsEntry::File {
            name: "keep.txt".to_string(),
            size_bytes: Some(1),
            modified_at: Some(1),
        }],
    };
    let mut snapshot = ReadFileTree::generate_tree(&two, &root_path(), &ctx(1000, "sync_1000"));
    SyncManager::mark_file_as_synced(&mut snapshot, &"gone.txt".to_string(), 1001).unwrap();
    let merged = ReadFileTree::generate_tree_preserving_sync_data(
        &one,
        &root_path(),
        &ctx(2000, "sync_2000"),
        Some(&snapshot),
    );
    let names: Vec<String> = merged.get_all_files().iter().map(|f| f.relative_path.clone()).collect();
    assert_eq!(names, vec!["keep.txt".to_string()], "deleted files are not resurrected");
    // … and the fresh scan knows a file the snapshot has never seen.
    let merged_back = ReadFileTree::generate_tree_preserving_sync_data(
        &two,
        &root_path(),
        &ctx(3000, "sync_3000"),
        Some(&merged),
    );
    let files = merged_back.get_all_files();
    assert_eq!(files.len(), 2);
    assert_eq!(files[1].relative_path, "gone.txt");
    assert_eq!(files[1].last_synced_at, None, "a file unknown to the snapshot stays unsynced");
}

#[test]
fn built_nodes_start_unsynchronized() {
    // A synchronization time is only ever recorded by a confirmed
    // transfer or carried forward by the merger; the builder never
    // guesses one, for folders as for files.
    let tree = ReadFileTree::generate_tree(&one_file_listing(10, 900), &root_path(), &ctx(1000, "sync_1000"));
    assert_eq!(tree.last_synced_at, None);
    assert_eq!(tree.sync_session_id, Some("sync_1000".to_string()));
    assert_eq!(tree.writer_id, Some("user@host".to_string()));
    let files = tree.get_all_files();
    assert_eq!(files[0].last_synced_at, None);
}

#[test]
fn generate_sync_id_is_the_prefixed_timestamp() {
    assert_eq!(generate_sync_id(1700000000), "sync_1700000000");
    assert_eq!(generate_sync_id(0), "sync_0");
}
