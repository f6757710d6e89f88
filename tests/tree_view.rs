use aura_vault::tree::{build_tree, describe, relative_path, TreeEntry};

fn entry(path: &str, is_dir: bool) -> TreeEntry {
    TreeEntry { path: path.to_string(), is_dir, created: Some(10), modified: None }
}

#[test]
fn nested_file_has_depth_three_and_parent() {
    let f = describe("/v", &entry("/v/a/b/c.md", false)).unwrap();
    assert_eq!(f.path, "a/b/c.md");
    assert_eq!(f.name, "c.md");
    assert_eq!(f.depth, 3);
    assert_eq!(f.parent_path, Some("a/b".to_string()));
    assert_eq!(f.extension, Some("md".to_string()));
    assert!(!f.is_dir);
    assert_eq!(f.created, Some(10));
    assert_eq!(f.modified, None);
}

#[test]
fn top_level_file_has_depth_one_and_no_parent() {
    let f = describe("/v", &entry("/v/x.md", false)).unwrap();
    assert_eq!(f.path, "x.md");
    assert_eq!(f.depth, 1);
    assert_eq!(f.parent_path, None);
}

#[test]
fn directory_has_no_extension() {
    let f = describe("/v/", &entry("/v/archive.md", true)).unwrap();
    assert_eq!(f.path, "archive.md");
    assert!(f.is_dir);
    assert_eq!(f.extension, None);
}

#[test]
fn entry_outside_root_is_skipped() {
    assert!(describe("/v", &entry("/w/a.md", false)).is_none());
    assert!(describe("/v", &entry("/vault/a.md", false)).is_none());
    assert!(describe("/v", &entry("/v", true)).is_none());
    assert_eq!(relative_path("/v", "/v/a/b"), Some("a/b".to_string()));
    assert_eq!(relative_path("/v", "/va/b"), None);
}

#[test]
fn tree_is_sorted_by_relative_path() {
    let entries = vec![
        entry("/v/b.md", false),
        entry("/elsewhere/z.md", false),
        entry("/v/a", true),
        entry("/v/a/c.md", false),
        entry("/v/a-b.md", false),
    ];
    let tree = build_tree("/v", &entries);
    let paths: Vec<&str> = tree.iter().map(|f| f.path.as_str()).collect();
    assert_eq!(paths, vec!["a", "a-b.md", "a/c.md", "b.md"]);
    assert_eq!(tree[2].depth, 2);
    assert_eq!(tree[2].parent_path, Some("a".to_string()));
}

#[test]
fn empty_tree() {
    assert!(build_tree("/v", &Vec::new()).is_empty());
}
