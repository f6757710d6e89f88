use aura_vault::error::Failure;
use aura_vault::media::{
    content_type_for, data_url, decode_pasted_image, fetched_data_url, image_data_url,
    pasted_image_name,
};
use aura_vault::notes::{
    chat_export_name, chat_export_path, last_segment_of, new_note_content, new_vault_folder, search_notes_by_name, stem_of, vault_name, welcome_note,
    WELCOME_BODY,
};

#[test]
fn image_url_uses_extension_in_any_case() {
    assert_eq!(image_data_url("/v/a.JPG", &vec![1, 2, 3]), "data:image/jpeg;base64,AQID");
    assert_eq!(image_data_url("/v/b.gif", &vec![]), "data:image/gif;base64,");
    assert_eq!(image_data_url("/v/c", &vec![104, 105]), "data:image/png;base64,aGk=");
    assert_eq!(image_data_url("/v/d.bmp", &vec![104]), "data:image/png;base64,aA==");
}

#[test]
fn fetched_url_defaults_to_png() {
    assert_eq!(fetched_data_url(None, &vec![104, 105]), "data:image/png;base64,aGk=");
    assert_eq!(fetched_data_url(Some("image/webp"), &vec![104, 105]), "data:image/webp;base64,aGk=");
}

#[test]
fn media_types() {
    assert_eq!(content_type_for("jpg"), "image/jpeg");
    assert_eq!(content_type_for("jpeg"), "image/jpeg");
    assert_eq!(content_type_for("gif"), "image/gif");
    assert_eq!(content_type_for("png"), "image/png");
    assert_eq!(content_type_for("tiff"), "image/png");
    assert_eq!(data_url("text/plain", "eA=="), "data:text/plain;base64,eA==");
}

#[test]
fn pasted_images() {
    assert_eq!(pasted_image_name("20240102030405", "png"), "Pasted image 20240102030405.png");
    assert_eq!(decode_pasted_image("aGk=").unwrap(), vec![104, 105]);
    assert_eq!(decode_pasted_image("not base64!"), Err(Failure::InvalidInput));
}

#[test]
fn search_ranks_exact_matches_first() {
    let files: Vec<String> = ["/v/Alpha.md", "/v/sub/alphabet.md", "/v/beta.md", "/v/img/ALPHA.png", "/v/sub"]
        .iter()
        .map(|s| s.to_string())
        .collect();
    let found = search_notes_by_name("/v", &files, "alpha");
    let got: Vec<(&str, &str)> = found.iter().map(|r| (r.name.as_str(), r.path.as_str())).collect();
    assert_eq!(
        got,
        vec![("ALPHA", "img/ALPHA.png"), ("Alpha", "Alpha.md"), ("alphabet", "sub/alphabet.md")]
    );
}

#[test]
fn search_without_hits_is_empty() {
    let files = vec!["/v/a.md".to_string()];
    assert!(search_notes_by_name("/v", &files, "zzz").is_empty());
    assert!(search_notes_by_name("/v", &Vec::new(), "").is_empty());
}

#[test]
fn note_and_vault_names() {
    assert_eq!(stem_of("a.tar.gz"), "a.tar");
    assert_eq!(stem_of(".bashrc"), ".bashrc");
    assert_eq!(new_note_content("notes/Idea.md"), "# Idea");
    assert_eq!(new_note_content(""), "# Untitled");
    assert_eq!(vault_name("/home/me/Vault"), "Vault");
    assert_eq!(vault_name("/"), "Untitled");
    assert_eq!(vault_name("/a/b/"), "b");
    assert_eq!(vault_name("/a/b//"), "b");
    assert_eq!(vault_name("/a/.."), "Untitled");
    assert_eq!(vault_name(""), "Untitled");
    assert_eq!(new_note_content("notes/Idea.md/"), "# Idea");
    assert_eq!(last_segment_of("x/y"), Some("y".to_string()));
    assert_eq!(vault_name("foo.txt/."), "foo.txt");
    assert_eq!(vault_name("a/./"), "a");
    assert_eq!(vault_name("."), "Untitled");
    assert_eq!(new_note_content("foo.txt/."), "# foo");
    assert_eq!(new_note_content("./"), "# Untitled");
}

#[test]
fn new_vault_names_are_trimmed() {
    assert_eq!(new_vault_folder("  Research \n"), Ok("Research".to_string()));
    assert_eq!(new_vault_folder(" \t "), Err(Failure::InvalidInput));
    assert_eq!(new_vault_folder("\u{3000}x y\u{85}"), Ok("x y".to_string()));
    assert_eq!(new_vault_folder("\u{200b}x"), Ok("\u{200b}x".to_string()));
    assert_eq!(new_vault_folder(""), Err(Failure::InvalidInput));
    let note = welcome_note("Research");
    assert!(note.starts_with("# Welcome to Research\n\nThis is your new Aura vault!"));
    assert_eq!(note, format!("# Welcome to Research{}", WELCOME_BODY));
}

#[test]
fn chat_export_names() {
    assert_eq!(chat_export_name("2024-01-02_03-04-05"), "chat-2024-01-02_03-04-05.md");
    assert_eq!(chat_export_path("chat-x.md"), "Chat History/chat-x.md");
}

#[test]
fn encoded_length_is_four_per_started_triple() {
    for n in 0..10usize {
        let url = fetched_data_url(Some("m"), &vec![7u8; n]);
        assert_eq!(url.len(), "data:m;base64,".len() + 4 * ((n + 2) / 3));
    }
}

#[test]
fn search_keeps_listing_order_for_equal_names() {
    let files = vec!["/v/z/Note.md".to_string(), "/v/a/Note.md".to_string(), "/v/m/note.md".to_string()];
    let found = search_notes_by_name("/v", &files, "note");
    let got: Vec<(&str, &str)> = found.iter().map(|r| (r.name.as_str(), r.path.as_str())).collect();
    assert_eq!(got, vec![("Note", "z/Note.md"), ("Note", "a/Note.md"), ("note", "m/note.md")]);
}
