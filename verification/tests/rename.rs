use griphook::files::{ImageFile, DEFAULT_PARSER, DEFAULT_REPLACEMENT};
use griphook::rename::{check_targets_absent, rename_error, RenameError, RenameOperation};

fn file(path: &str, selected: bool) -> ImageFile {
    ImageFile { path: path.to_string(), selected }
}

#[test]
fn rename_plan_expands_captures_and_set_name() {
    let files = [file("/tmp/x/img_2024-01-02_03-04-05_ada_camera.ORF", true)];
    let renamed = RenameOperation::new(&files, DEFAULT_PARSER, DEFAULT_REPLACEMENT, "holiday")
        .plan()
        .unwrap();
    assert_eq!(renamed.len(), 1);
    assert_eq!(renamed[0].0, "/tmp/x/img_2024-01-02_03-04-05_ada_camera.ORF");
    assert_eq!(renamed[0].1, "/tmp/x/img_2024-01-02_03-04-05_ada_camera_holiday.ORF");
}

#[test]
fn rename_only_selected_files_in_order() {
    let files = [file("d/a1.jpg", true), file("d/b1.jpg", false), file("d/c1.jpg", true)];
    let renamed = RenameOperation::new(&files, "1", "2", "").plan().unwrap();
    assert_eq!(
        renamed,
        vec![
            ("d/a1.jpg".to_string(), "d/a2.jpg".to_string()),
            ("d/c1.jpg".to_string(), "d/c2.jpg".to_string())
        ]
    );
}

#[test]
fn rename_replaces_only_the_first_match() {
    let files = [file("d/aaa.png", true), file("d/zzz.png", false)];
    let renamed = RenameOperation::new(&files, "a", "b", "").plan().unwrap();
    assert_eq!(renamed.len(), 1);
    assert_eq!(renamed[0].1, "d/baa.png");
}

#[test]
fn rename_set_name_everywhere() {
    let files = [file("d/x.png", true)];
    let renamed = RenameOperation::new(&files, "^x", "$name-$name", "set").plan().unwrap();
    assert_eq!(renamed[0].1, "d/set-set.png");
}

#[test]
fn rename_invalid_regex() {
    let files = [file("d/x.png", true)];
    match RenameOperation::new(&files, "(", "y", "").plan() {
        Err(RenameError::InvalidRegex(m)) => assert!(!m.is_empty()),
        _ => panic!("expected invalid regex"),
    }
}

#[test]
fn rename_target_to_source() {
    let files = [file("d/a.png", true), file("d/b.png", true)];
    match RenameOperation::new(&files, "^a", "b", "").plan() {
        Err(RenameError::TargetToSource) => {}
        _ => panic!("expected a rename onto another source"),
    }
}

#[test]
fn rename_duplicate_targets() {
    let files = [file("d/a1.png", true), file("d/a2.png", true)];
    match RenameOperation::new(&files, "a.", "z", "").plan() {
        Err(RenameError::DuplicateFileNames) => {}
        _ => panic!("expected duplicate names"),
    }
}

#[test]
fn rename_unchanged_name_is_a_conflict() {
    // A file whose name does not change is renamed onto itself.
    let files = [file("d/a.png", true)];
    match RenameOperation::new(&files, "nomatch", "z", "").plan() {
        Err(RenameError::TargetToSource) => {}
        _ => panic!("expected a rename onto a source"),
    }
}

#[test]
fn rename_nameless_path() {
    let files = [file("d/..", true)];
    match RenameOperation::new(&files, "x", "y", "").plan() {
        Err(RenameError::FilenameNotAccessible(p)) => assert_eq!(p, "d/.."),
        _ => panic!("expected no file name"),
    }
}

#[test]
fn rename_nothing_selected() {
    let files = [file("d/a.png", false)];
    assert!(RenameOperation::new(&files, "a", "b", "").plan().unwrap().is_empty());
}

#[test]
fn targets_absent_check() {
    let renames = vec![
        ("a".to_string(), "b".to_string()),
        ("c".to_string(), "d".to_string()),
        ("e".to_string(), "f".to_string()),
    ];
    assert!(check_targets_absent(&renames, &vec![false, false, false]).is_ok());
    match check_targets_absent(&renames, &vec![false, true, true]) {
        Err(RenameError::TargetExists(p)) => assert_eq!(p, "d"),
        _ => panic!("expected existing target"),
    }
}

#[test]
fn rename_messages() {
    assert_eq!(RenameError::InvalidRegex("e".into()).message(), "Invalid regular expression: e");
    assert_eq!(
        RenameError::FilenameNotAccessible("p".into()).message(),
        "Filename of path p could not be obtained"
    );
    assert_eq!(RenameError::NonUnicodeFileName("n".into()).message(), "File n has a non-unicode filename");
    assert_eq!(
        RenameError::TargetToSource.message(),
        "Some files would be renamed to the original name of another file"
    );
    assert_eq!(RenameError::DuplicateFileNames.message(), "Some files would be renamed to identical names");
    assert_eq!(RenameError::TargetExists("t".into()).message(), "Target file t already exists");
    assert_eq!(
        RenameError::OnRename { from: "a".into(), to: "b".into(), err: "denied".into() }.message(),
        "Error when renaming file a into b: denied"
    );
    assert_eq!(rename_error("a", "b", "denied"), "Could not rename a to b: denied");
}

#[test]
fn rename_set_name_is_taken_literally() {
    let files = [file("/d/x.ORF", true)];
    let renamed = RenameOperation::new(&files, r"^(?P<n>x)\.ORF$", "${n}_$name.ORF", "$n")
        .plan()
        .unwrap();
    assert_eq!(renamed, vec![("/d/x.ORF".to_string(), "/d/x_$n.ORF".to_string())]);
    let renamed = RenameOperation::new(&files, r"^(?P<n>x)\.ORF$", "${n}_$name.ORF", "a$$b")
        .plan()
        .unwrap();
    assert_eq!(renamed[0].1, "/d/x_a$$b.ORF");
}
