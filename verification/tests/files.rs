use griphook::files::{display_name, FileError, ImageDirectory, ImageFile, DEFAULT_PARSER};

fn paths(files: &[ImageFile]) -> Vec<&str> {
    files.iter().map(|f| f.path.as_str()).collect()
}

#[test]
fn mod_image_extensions_are_case_insensitive() {
    assert!(ImageFile::is_supported("photo.ORF"));
    assert!(ImageFile::is_supported("photo.jpg"));
    assert!(!ImageFile::is_supported("notes.txt"));
}

#[test]
fn files_image_extensions_are_case_insensitive() {
    assert!(ImageFile::is_supported("photo.ORF"));
    assert!(ImageFile::is_supported("photo.jpg"));
    assert!(!ImageFile::is_supported("notes.txt"));
}

#[test]
fn default_parser_is_valid() {
    assert!(regex::Regex::new(DEFAULT_PARSER).is_ok());
    assert!(ImageDirectory::new("dir".to_string()).scan(DEFAULT_PARSER, Ok(Vec::new())).is_ok());
}

#[test]
fn supported_extension_edge_cases() {
    assert!(ImageFile::is_supported("dir/a.TiFf"));
    assert!(ImageFile::is_supported("a.b.WebP"));
    assert!(!ImageFile::is_supported(".jpg"));
    assert!(!ImageFile::is_supported("jpg"));
    assert!(ImageFile::is_supported("dir.jpg/"));
    assert!(ImageFile::is_supported("dir/x.jpg/"));
    assert!(!ImageFile::is_supported("x.jpg/.."));
    assert!(!ImageFile::is_supported("photo.jpgx"));
    assert!(!ImageFile::is_supported("photo."));
}

#[test]
fn scan_filters_and_sorts_by_name() {
    let entries = vec![
        "d/img_b.ORF".to_string(),
        "d/notes.txt".to_string(),
        "d/img_a.jpg".to_string(),
        "d/other.png".to_string(),
        "d/img_C.orf".to_string(),
    ];
    let dir = ImageDirectory::new("d".to_string());
    let files = dir.scan("^img_", Ok(entries.clone())).unwrap();
    assert_eq!(paths(&files), vec!["d/img_C.orf", "d/img_a.jpg", "d/img_b.ORF"]);
    assert!(files.iter().all(|f| !f.selected));
    let all = dir.scan("", Ok(entries)).unwrap();
    assert_eq!(paths(&all), vec!["d/img_C.orf", "d/img_a.jpg", "d/img_b.ORF", "d/other.png"]);
}

#[test]
fn scan_matches_file_name_not_directory() {
    let entries = vec!["photos/a.jpg".to_string(), "x/photos.jpg".to_string()];
    let dir = ImageDirectory::new("photos".to_string());
    let files = dir.scan("^photos", Ok(entries)).unwrap();
    assert_eq!(paths(&files), vec!["x/photos.jpg"]);
}

#[test]
fn scan_rejects_invalid_regex() {
    let dir = ImageDirectory::new("d".to_string());
    match dir.scan("img_(", Ok(vec!["d/img_.jpg".to_string()])) {
        Err(FileError::InvalidRegex(message)) => assert!(!message.is_empty()),
        _ => panic!("expected an invalid regex error"),
    }
    // The filter is checked before the listing.
    match dir.scan("img_(", Err("denied".to_string())) {
        Err(FileError::InvalidRegex(_)) => {}
        _ => panic!("expected an invalid regex error"),
    }
}

#[test]
fn scan_reports_unreadable_directory() {
    let dir = ImageDirectory::new("/nope".to_string());
    match dir.scan("", Err("No such file or directory".to_string())) {
        Err(FileError::ReadDirectory { dir, err }) => {
            assert_eq!(dir, "/nope");
            assert_eq!(err, "No such file or directory");
        }
        _ => panic!("expected a read error"),
    }
}

#[test]
fn display_names() {
    assert_eq!(display_name("d/photo.jpg"), "photo.jpg");
    assert_eq!(display_name("d/.."), "?");
}

#[test]
fn file_error_messages() {
    let e = FileError::InvalidRegex("bad".to_string());
    assert_eq!(e.message(), "Invalid regular expression: bad");
    let e = FileError::ReadDirectory { dir: "/nope".to_string(), err: "missing".to_string() };
    assert_eq!(e.message(), "Could not read directory /nope: missing");
}

#[test]
fn directory_keeps_its_path() {
    assert_eq!(ImageDirectory::new("/a/b".to_string()).path(), "/a/b");
}
