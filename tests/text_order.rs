use aura_vault::text::{contains_text, count_of, find_last, text_eq, text_lt};

#[test]
fn substring_search() {
    assert!(contains_text("http://localhost:11434", "11434"));
    assert!(contains_text("abc", ""));
    assert!(!contains_text("ab", "abc"));
    assert!(!contains_text("a/v2", "/v1"));
}

#[test]
fn ordering_matches_str_ordering() {
    let words = ["", "a", "a-b", "a/b", "ab", "b", "é", "z"];
    for x in words.iter() {
        for y in words.iter() {
            assert_eq!(text_lt(x, y), x < y);
            assert_eq!(text_eq(x, y), x == y);
        }
    }
}

#[test]
fn separators() {
    assert_eq!(find_last("a/b/c", '/'), Some(3));
    assert_eq!(find_last("abc", '/'), None);
    assert_eq!(count_of("a/b/c", '/'), 2);
}
