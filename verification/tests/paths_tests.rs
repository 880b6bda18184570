use file_organizer::paths::{
    check_path, convert_path_to_os_style, format_path, PathError, Separator,
};
use file_organizer::text::{to_upper, trim};

#[test]
fn appends_exactly_one_trailing_separator() {
    let r = format_path(&"/home/user/files".to_string(), Separator::Slash);
    assert_eq!(r, Some("/home/user/files/".to_string()));
}

#[test]
fn keeps_an_existing_trailing_separator() {
    let r = format_path(&"/home/user/files/".to_string(), Separator::Slash);
    assert_eq!(r, Some("/home/user/files/".to_string()));
}

#[test]
fn trims_surrounding_whitespace() {
    let r = format_path(&"  /a/b \n".to_string(), Separator::Slash);
    assert_eq!(r, Some("/a/b/".to_string()));
}

#[test]
fn converts_foreign_separators_to_slash() {
    let r = format_path(&r"C:\dir\sub".to_string(), Separator::Slash);
    assert_eq!(r, Some("C:/dir/sub/".to_string()));
}

#[test]
fn converts_foreign_separators_to_backslash() {
    let r = format_path(&"C:/dir/sub".to_string(), Separator::Backslash);
    assert_eq!(r, Some(r"C:\dir\sub\".to_string()));
}

#[test]
fn convert_path_handles_mixed_separators() {
    let r = convert_path_to_os_style(&r"a\b/c\d".to_string(), Separator::Slash);
    assert_eq!(r, "a/b/c/d");
}

#[test]
fn short_inputs_are_rejected() {
    assert_eq!(format_path(&String::new(), Separator::Slash), None);
    assert_eq!(format_path(&"   ".to_string(), Separator::Slash), None);
    assert_eq!(format_path(&"a".to_string(), Separator::Slash), None);
}

#[test]
fn empty_input_is_rejected_without_filesystem_access() {
    assert_eq!(check_path(&String::new(), Separator::Slash), Err(PathError::Empty));
    assert_eq!(check_path(&" \t ".to_string(), Separator::Slash), Err(PathError::Empty));
}

#[test]
fn one_character_input_is_rejected() {
    assert_eq!(check_path(&"a".to_string(), Separator::Slash), Err(PathError::TooShort));
}

#[test]
fn valid_input_is_normalized() {
    let r = check_path(&" /tmp/stuff ".to_string(), Separator::Slash);
    assert_eq!(r, Ok("/tmp/stuff/".to_string()));
}

#[test]
fn trim_removes_both_ends_only() {
    assert_eq!(trim("  a b  "), "a b");
    assert_eq!(trim("\t\n"), "");
    assert_eq!(trim("ab"), "ab");
}

#[test]
fn to_upper_maps_ascii_letters() {
    assert_eq!(to_upper("docx"), "DOCX");
    assert_eq!(to_upper("mP3"), "MP3");
    assert_eq!(to_upper("A-1_b"), "A-1_B");
}
