use rusty_sync::codec::JsonValidator;
use rusty_sync::codec::parse_snapshot;
use rusty_sync::codec::render_snapshot;
use rusty_sync::node::FileNode;
use rusty_sync::node::NodeKind;

fn sample_tree() -> FileNode {
    FileNode {
        name: "root".to_string(),
        kind: NodeKind::Folder,
        absolute_path: "/home/user/root".to_string(),
        relative_path: ".".to_string(),
        children: Some(vec![
            FileNode {
                name: "hello.txt".to_string(),
                kind: NodeKind::File,
                absolute_path: "/home/user/root/hello.txt".to_string(),
                relative_path: "hello.txt".to_string(),
                children: None,
                repository_origin: None,
                size_bytes: Some(10),
                modified_at: Some(1700000000),
                content_hash: None,
                last_synced_at: None,
                sync_session_id: Some("sync_1700000000".to_string()),
                writer_id: Some("user@host".to_string()),
            },
            FileNode {
                name: "repo".to_string(),
                kind: NodeKind::Folder,
                absolute_path: "/home/user/root/repo".to_string(),
                relative_path: "repo".to_string(),
                children: None,
                repository_origin: Some("git@example.com:repo.git".to_string()),
                size_bytes: None,
                modified_at: None,
                content_hash: None,
                last_synced_at: Some(1700000000),
                sync_session_id: Some("sync_1700000000".to_string()),
                writer_id: Some("user@host".to_string()),
            },
        ]),
        repository_origin: None,
        size_bytes: None,
        modified_at: None,
        content_hash: None,
        last_synced_at: Some(1700000000),
        sync_session_id: Some("sync_1700000000".to_string()),
        writer_id: Some("user@host".to_string()),
    }
}

fn assert_trees_equal(a: &FileNode, b: &FileNode) {
    assert_eq!(a.name, b.name);
    assert_eq!(a.is_file(), b.is_file());
    assert_eq!(a.absolute_path, b.absolute_path);
    assert_eq!(a.relative_path, b.relative_path);
    assert_eq!(a.repository_origin, b.repository_origin);
    assert_eq!(a.size_bytes, b.size_bytes);
    assert_eq!(a.modified_at, b.modified_at);
    assert_eq!(a.content_hash, b.content_hash);
    assert_eq!(a.last_synced_at, b.last_synced_at);
    assert_eq!(a.sync_session_id, b.sync_session_id);
    assert_eq!(a.writer_id, b.writer_id);
    match (&a.children, &b.children) {
        (None, None) => {}
        (Some(x), Some(y)) => {
            assert_eq!(x.len(), y.len());
            for (cx, cy) in x.iter().zip(y.iter()) {
                assert_trees_equal(cx, cy);
            }
        }
        _ => panic!("children differ"),
    }
}

#[test]
fn round_trip_reconstructs_every_field() {
    let tree = sample_tree();
    let text = render_snapshot(&tree);
    let parsed = parse_snapshot(&text).expect("canonical document must parse");
    assert_trees_equal(&tree, &parsed);
}

#[test]
fn round_trip_survives_quotes_and_backslashes_in_names() {
    let mut tree = sample_tree();
    tree.name = "we\"ird\\name".to_string();
    tree.absolute_path = "C:\\Users\\someone\\root".to_string();
    let text = render_snapshot(&tree);
    let parsed = parse_snapshot(&text).expect("escaped document must parse");
    assert_trees_equal(&tree, &parsed);
}

#[test]
fn round_trip_keeps_extreme_numbers() {
    let mut tree = sample_tree();
    if let Some(children) = &mut tree.children {
        children[0].size_bytes = Some(u64::MAX);
        children[0].modified_at = Some(0);
    }
    let text = render_snapshot(&tree);
    let parsed = parse_snapshot(&text).expect("document must parse");
    assert_trees_equal(&tree, &parsed);
}

#[test]
fn snapshot_is_plain_json_for_other_readers() {
    let tree = sample_tree();
    let text: String = render_snapshot(&tree).iter().collect();
    let value: serde_json::Value = serde_json::from_str(&text).expect("snapshot must be JSON");
    assert_eq!(value["name"], serde_json::Value::String("root".to_string()));
    assert_eq!(value["kind"], serde_json::Value::String("folder".to_string()));
    assert_eq!(value["relative_path"], serde_json::Value::String(".".to_string()));
    assert!(value["size_bytes"].is_null());
    assert!(value["content_hash"].is_null());
    let children = value["children"].as_array().expect("children are a list");
    assert_eq!(children.len(), 2);
    assert_eq!(children[0]["name"], serde_json::Value::String("hello.txt".to_string()));
    assert_eq!(children[0]["kind"], serde_json::Value::String("file".to_string()));
    assert_eq!(children[0]["size_bytes"], serde_json::Value::from(10u64));
    assert!(children[0]["last_synced_at"].is_null());
    assert_eq!(
        children[1]["repository_origin"],
        serde_json::Value::String("git@example.com:repo.git".to_string())
    );
    assert!(children[1]["children"].is_null());
}

#[test]
fn validate_json_format_accepts_the_canonical_document() {
    let tree = sample_tree();
    let text = render_snapshot(&tree);
    assert!(JsonValidator::validate_json_format(&text));
}

#[test]
fn validate_json_format_rejects_foreign_text() {
    let garbage: Vec<char> = "{\"not\":\"a snapshot\"}".chars().collect();
    assert!(!JsonValidator::validate_json_format(&garbage));
    let empty: Vec<char> = Vec::new();
    assert!(!JsonValidator::validate_json_format(&empty));
    let mut truncated = render_snapshot(&sample_tree());
    truncated.pop();
    assert!(!JsonValidator::validate_json_format(&truncated));
}

#[test]
fn parse_accepts_a_hand_written_document() {
    let text = "{\"name\":\"a.txt\",\"kind\":\"file\",\"absolute_path\":\"/r/a.txt\",\"relative_path\":\"a.txt\",\"children\":null,\"repository_origin\":null,\"size_bytes\":12,\"modified_at\":1700000001,\"content_hash\":null,\"last_synced_at\":null,\"sync_session_id\":null,\"writer_id\":null}";
    let chars: Vec<char> = text.chars().collect();
    let node = parse_snapshot(&chars).expect("a canonical document parses");
    assert!(node.is_file());
    assert_eq!(node.name, "a.txt");
    assert_eq!(node.size_bytes, Some(12));
    assert_eq!(node.modified_at, Some(1700000001));
    assert_eq!(node.last_synced_at, None);
    assert!(node.children.is_none());
}

#[test]
fn duplicate_copies_every_field() {
    let tree = sample_tree();
    let copy = tree.duplicate();
    assert_trees_equal(&tree, &copy);
}

#[test]
fn parse_rejects_trailing_text() {
    let mut text = render_snapshot(&sample_tree());
    text.push(' ');
    assert!(parse_snapshot(&text).is_none());
}
