use aura_vault::error::Failure;
use std::path::Path;

use aura_vault::vault::{
    extension_of, file_name_of, is_recognized, within_root, PathStatus, Vault, WalkEntry,
};

fn entry(path: &str, status: PathStatus) -> WalkEntry {
    WalkEntry { path: path.to_string(), status }
}

#[test]
fn open_missing_root_is_not_found() {
    let r = Vault::new("/nowhere".to_string(), PathStatus::Missing);
    assert!(matches!(r, Err(Failure::NotFound)));
}

#[test]
fn open_file_root_is_invalid_input() {
    let r = Vault::new("/tmp/a.md".to_string(), PathStatus::File);
    assert!(matches!(r, Err(Failure::InvalidInput)));
}

#[test]
fn open_directory_keeps_path() {
    let v = Vault::new("/home/me/notes".to_string(), PathStatus::Directory).unwrap();
    assert_eq!(v.path(), "/home/me/notes");
}

#[test]
fn listing_keeps_directories_and_recognized_files_sorted() {
    let v = Vault::new("/v".to_string(), PathStatus::Directory).unwrap();
    let walked = vec![
        entry("/v", PathStatus::Directory),
        entry("/v/zeta.md", PathStatus::File),
        entry("/v/notes", PathStatus::Directory),
        entry("/v/notes/b.png", PathStatus::File),
        entry("/v/notes/a.txt", PathStatus::File),
        entry("/v/img.jpeg", PathStatus::File),
        entry("/v/anim.gif", PathStatus::File),
        entry("/v/photo.jpg", PathStatus::File),
        entry("/v/.hidden", PathStatus::File),
        entry("/v/README", PathStatus::File),
        entry("/v/link", PathStatus::Other),
        entry("/v/Notes.MD", PathStatus::File),
    ];
    let listed = v.list_markdown_files(&walked);
    assert_eq!(
        listed,
        vec![
            "/v/anim.gif".to_string(),
            "/v/img.jpeg".to_string(),
            "/v/notes".to_string(),
            "/v/notes/b.png".to_string(),
            "/v/photo.jpg".to_string(),
            "/v/zeta.md".to_string(),
        ]
    );
    for w in listed.windows(2) {
        assert!(Path::new(&w[0]) < Path::new(&w[1]));
    }
}

#[test]
fn listing_orders_by_path_segments() {
    let v = Vault::new("/r".to_string(), PathStatus::Directory).unwrap();
    let walked = vec![
        entry("/r/a.md", PathStatus::File),
        entry("/r/a/b", PathStatus::Directory),
        entry("/r/a", PathStatus::Directory),
        entry("/r/a-z", PathStatus::Directory),
        entry("/r/a/b/c.md", PathStatus::File),
    ];
    let listed = v.list_markdown_files(&walked);
    assert_eq!(listed, vec!["/r/a", "/r/a/b", "/r/a/b/c.md", "/r/a-z", "/r/a.md"]);
    for w in listed.windows(2) {
        assert!(Path::new(&w[0]) < Path::new(&w[1]));
    }
}

#[test]
fn containment_of_canonical_paths() {
    assert!(within_root("/home/v", "/home/v"));
    assert!(within_root("/home/v", "/home/v/a/b.md"));
    assert!(within_root("/", "/etc"));
    assert!(!within_root("/home/v", "/home/vault/a.md"));
    assert!(!within_root("/home/v", "/etc/passwd"));
}

#[test]
fn listing_of_empty_walk_is_empty() {
    let v = Vault::new("/v".to_string(), PathStatus::Directory).unwrap();
    assert!(v.list_markdown_files(&vec![entry("/v", PathStatus::Directory)]).is_empty());
}

#[test]
fn listing_drops_repeated_paths() {
    let v = Vault::new("/v".to_string(), PathStatus::Directory).unwrap();
    let walked = vec![entry("/v/a.md", PathStatus::File), entry("/v/a.md", PathStatus::File)];
    assert_eq!(v.list_markdown_files(&walked), vec!["/v/a.md".to_string()]);
}

#[test]
fn resolve_joins_under_root() {
    let v = Vault::new("/v".to_string(), PathStatus::Directory).unwrap();
    assert_eq!(v.resolve("a/b.md").unwrap(), "/v/a/b.md");
    let w = Vault::new("/v/".to_string(), PathStatus::Directory).unwrap();
    assert_eq!(w.resolve("b.md").unwrap(), "/v/b.md");
}

#[test]
fn resolve_rejects_malformed_paths() {
    let v = Vault::new("/v".to_string(), PathStatus::Directory).unwrap();
    assert!(matches!(v.resolve(""), Err(Failure::InvalidInput)));
    assert!(matches!(v.resolve("/etc/passwd"), Err(Failure::InvalidInput)));
    assert!(matches!(v.resolve("../x.md"), Err(Failure::InvalidInput)));
    assert!(matches!(v.resolve("a/../../x.md"), Err(Failure::InvalidInput)));
    assert!(matches!(v.resolve("a/.."), Err(Failure::InvalidInput)));
    assert_eq!(v.resolve("a/..b.md").unwrap(), "/v/a/..b.md");
    assert!(matches!(v.resolve("."), Err(Failure::InvalidInput)));
    assert!(matches!(v.resolve("a/./../../x"), Err(Failure::InvalidInput)));
}

#[test]
fn resolve_accepts_paths_that_stay_inside() {
    let v = Vault::new("/v".to_string(), PathStatus::Directory).unwrap();
    assert_eq!(v.resolve("a/../b.md").unwrap(), "/v/a/../b.md");
    assert_eq!(v.resolve("./x.md").unwrap(), "/v/./x.md");
    assert_eq!(v.resolve("a//b/").unwrap(), "/v/a//b/");
}

#[test]
fn names_and_extensions() {
    assert_eq!(file_name_of("/v/notes/a.md"), "a.md");
    assert_eq!(file_name_of("plain"), "plain");
    assert_eq!(extension_of("a.tar.gz"), Some("gz".to_string()));
    assert_eq!(extension_of(".bashrc"), None);
    assert_eq!(extension_of("README"), None);
    assert_eq!(extension_of("a."), Some("".to_string()));
    assert!(is_recognized("md"));
    assert!(is_recognized("jpeg"));
    assert!(!is_recognized("MD"));
    assert!(!is_recognized("txt"));
}
