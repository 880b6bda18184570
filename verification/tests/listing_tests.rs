use file_organizer::listing::{sort_entries, str_lex_le, Entry};

fn entry(name: &str, is_dir: bool) -> Entry {
    Entry { name: name.to_string(), is_dir }
}

fn names(v: &[Entry]) -> Vec<String> {
    v.iter().map(|e| e.name.clone()).collect()
}

#[test]
fn lexicographic_comparison() {
    assert!(str_lex_le("abc", "abd"));
    assert!(!str_lex_le("abd", "abc"));
    assert!(str_lex_le("ab", "abc"));
    assert!(!str_lex_le("abc", "ab"));
    assert!(str_lex_le("", "a"));
    assert!(str_lex_le("same", "same"));
    // Uppercase letters come before lowercase ones, by code point.
    assert!(str_lex_le("Zed", "ant"));
}

#[test]
fn listing_is_sorted() {
    let v = vec![
        entry("settings.ini", false),
        entry("archive", true),
        entry("report.docx", false),
        entry("photo.JPG", false),
    ];
    let sorted = sort_entries(v);
    assert_eq!(
        names(&sorted),
        vec!["archive", "photo.JPG", "report.docx", "settings.ini"]
    );
}

#[test]
fn sorting_keeps_duplicates() {
    let v = vec![entry("b", false), entry("a", false), entry("b", true), entry("a", false)];
    let sorted = sort_entries(v);
    assert_eq!(names(&sorted), vec!["a", "a", "b", "b"]);
}

#[test]
fn sorting_an_empty_listing() {
    let sorted = sort_entries(Vec::new());
    assert!(sorted.is_empty());
}
