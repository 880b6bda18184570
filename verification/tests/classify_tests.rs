use file_organizer::classify::{classify, extension_of, get_name_map, resolve_extension};

fn cat(ext: &str) -> String {
    let map = get_name_map();
    classify(&map, &ext.to_string())
}

fn resolved(ext: &str) -> String {
    let map = get_name_map();
    resolve_extension(&map, &ext.to_string())
}

#[test]
fn texts_extensions() {
    assert_eq!(cat("TXT"), "Texts");
    assert_eq!(cat("DOC"), "Texts");
    assert_eq!(cat("DOCX"), "Texts");
}

#[test]
fn odt_keeps_first_assignment() {
    assert_eq!(cat("ODT"), "Texts");
}

#[test]
fn tables_extensions() {
    assert_eq!(cat("CSV"), "Tables");
    assert_eq!(cat("XLS"), "Tables");
    assert_eq!(cat("XLSX"), "Tables");
}

#[test]
fn presentations_extensions() {
    assert_eq!(cat("PPT"), "Presentations");
    assert_eq!(cat("PPTX"), "Presentations");
    assert_eq!(cat("ODP"), "Presentations");
}

#[test]
fn images_extensions() {
    assert_eq!(cat("JPG"), "Images");
    assert_eq!(cat("JPEG"), "Images");
    assert_eq!(cat("PNG"), "Images");
    assert_eq!(cat("TIFF"), "Images");
    assert_eq!(cat("BMP"), "Images");
}

#[test]
fn videos_extensions() {
    assert_eq!(cat("MP4"), "Videos");
    assert_eq!(cat("MOV"), "Videos");
    assert_eq!(cat("AVI"), "Videos");
    assert_eq!(cat("WMV"), "Videos");
}

#[test]
fn audios_extensions() {
    assert_eq!(cat("WAV"), "Audios");
    assert_eq!(cat("MP3"), "Audios");
    assert_eq!(cat("FLAC"), "Audios");
}

#[test]
fn classification_is_case_insensitive() {
    assert_eq!(resolved("jpg"), "Images");
    assert_eq!(resolved("JPG"), "Images");
    assert_eq!(resolved("Jpg"), "Images");
    assert_eq!(resolved("docx"), "Texts");
    assert_eq!(resolved("mP3"), "Audios");
}

#[test]
fn unmapped_extension_passes_through_uppercased() {
    assert_eq!(resolved("xyz"), "XYZ");
    assert_eq!(resolved("Md"), "MD");
    assert_eq!(resolved("tar"), "TAR");
}

#[test]
fn ini_resolves_to_itself() {
    assert_eq!(resolved("ini"), "INI");
    assert_eq!(resolved("INI"), "INI");
}

#[test]
fn extension_after_last_dot() {
    assert_eq!(extension_of("report.docx"), Some("docx".to_string()));
    assert_eq!(extension_of("archive.tar.gz"), Some("gz".to_string()));
    assert_eq!(extension_of("photo.JPG"), Some("JPG".to_string()));
}

#[test]
fn no_dot_means_no_extension() {
    assert_eq!(extension_of("README"), None);
    assert_eq!(extension_of(""), None);
}

#[test]
fn trailing_dot_means_empty_extension() {
    assert_eq!(extension_of("name."), Some(String::new()));
}
