use griphook::app::{
    button_highlighting, max_loading_for, App, ButtonLook, ButtonStatus, Command, ErrorKind, Message,
    PaletteSlot,
};
use griphook::files::{FileError, ImageFile, DEFAULT_PARSER, DEFAULT_REPLACEMENT};
use griphook::rename::RenameError;

fn files(n: usize) -> Vec<ImageFile> {
    (0..n).map(|i| ImageFile { path: format!("d/f{i}.jpg"), selected: false }).collect()
}

fn loaded_app(n: usize, max_loading: usize) -> (App, Vec<Command>) {
    let (mut app, _) = App::new("d".to_string(), max_loading);
    let cmds = app.update(Message::FilesLoaded(Ok(files(n))));
    (app, cmds)
}

fn thumbnail_loads(cmds: &[Command]) -> Vec<String> {
    cmds.iter()
        .filter_map(|c| match c {
            Command::LoadThumbnail(p) => Some(p.clone()),
            _ => None,
        })
        .collect()
}

#[test]
fn new_app_lists_directory_with_defaults() {
    let (app, cmds) = App::new("/pics".to_string(), 2);
    assert_eq!(app.file.filter, DEFAULT_PARSER);
    assert_eq!(app.replacement, DEFAULT_REPLACEMENT);
    assert!(!app.busy);
    assert_eq!(cmds.len(), 1);
    match &cmds[0] {
        Command::LoadFiles { directory, filter } => {
            assert_eq!(directory, "/pics");
            assert_eq!(filter, DEFAULT_PARSER);
        }
        _ => panic!("expected a listing job"),
    }
}

#[test]
fn loading_files_starts_bounded_thumbnail_jobs() {
    let (app, cmds) = loaded_app(20, 3);
    assert_eq!(thumbnail_loads(&cmds), vec!["d/f0.jpg", "d/f1.jpg", "d/f2.jpg"]);
    assert_eq!(app.thumbnails.loading.len(), 3);
    assert_eq!(app.thumbnails.queued.len(), 13);
    assert_eq!(app.thumbnails.queued[0], "d/f3.jpg");
}

#[test]
fn finished_thumbnail_starts_next_and_is_cached() {
    let (mut app, _) = loaded_app(5, 1);
    let cmds = app.update(Message::ThumbnailLoaded("d/f0.jpg".to_string(), Ok(vec![1, 2])));
    match &cmds[0] {
        Command::CacheThumbnail(p, b) => {
            assert_eq!(p, "d/f0.jpg");
            assert_eq!(b, &vec![1, 2]);
        }
        _ => panic!("expected the thumbnail to be kept"),
    }
    assert_eq!(thumbnail_loads(&cmds), vec!["d/f1.jpg"]);
    assert_eq!(app.thumbnails.cached, vec!["d/f0.jpg".to_string()]);
    assert!(app.thumbnails.loading.len() <= app.thumbnails.max_loading);
}

#[test]
fn scrolling_queues_visible_files_first() {
    let (mut app, _) = loaded_app(30, 1);
    let cmds = app.update(Message::Scrolled { first: 20, visible: 3 });
    assert!(thumbnail_loads(&cmds).is_empty());
    assert_eq!(app.thumbnails.queued[0], "d/f20.jpg");
    assert_eq!(app.thumbnails.queued[1], "d/f21.jpg");
    assert_eq!(app.thumbnails.queued[2], "d/f22.jpg");
}

#[test]
fn click_shows_preview() {
    let (mut app, _) = loaded_app(3, 1);
    let cmds = app.update(Message::FileClicked(1));
    assert_eq!(app.file.displayed, Some(1));
    assert!(matches!(cmds[0], Command::ClearPreview));
    match &cmds[1] {
        Command::LoadPreview(p) => assert_eq!(p, "d/f1.jpg"),
        _ => panic!("expected a preview job"),
    }
    assert_eq!(app.preview.status, Ok(Some("Loading preview\u{2026}".to_string())));
}

#[test]
fn ctrl_click_toggles_and_toggle_twice_restores() {
    let (mut app, _) = loaded_app(3, 1);
    app.update(Message::ModifiersChanged { ctrl: true, shift: false });
    app.update(Message::FileClicked(2));
    assert!(app.file.files[2].selected);
    app.update(Message::Toggle(2));
    assert!(!app.file.files[2].selected);
    app.update(Message::Toggle(7));
    assert!(app.file.files.iter().all(|f| !f.selected));
}

#[test]
fn ctrl_shift_click_selects_range_from_displayed() {
    let (mut app, _) = loaded_app(6, 1);
    app.update(Message::FileClicked(4));
    app.update(Message::Toggle(2));
    app.update(Message::ModifiersChanged { ctrl: true, shift: true });
    app.update(Message::FileClicked(1));
    let selected: Vec<bool> = app.file.files.iter().map(|f| f.selected).collect();
    assert_eq!(selected, vec![false, true, true, true, true, false]);
}

#[test]
fn rename_while_busy_is_ignored() {
    let (mut app, _) = loaded_app(2, 1);
    app.update(Message::FilterChanged("x".to_string()));
    assert!(app.busy);
    let cmds = app.update(Message::Rename);
    assert!(cmds.is_empty());
}

#[test]
fn rename_flow_follows_displayed_file() {
    let (mut app, _) = loaded_app(2, 1);
    app.update(Message::FileClicked(1));
    app.update(Message::SetNameChanged("set".to_string()));
    let cmds = app.update(Message::Rename);
    assert!(app.busy);
    assert!(app.thumbnails.queued.is_empty());
    assert_eq!(app.thumbnails.discarded, vec!["d/f0.jpg".to_string()]);
    assert_eq!(app.preview.old_displayed_file, Some("d/f1.jpg".to_string()));
    match &cmds[0] {
        Command::RenameFiles { files, set_name, .. } => {
            assert_eq!(files.len(), 2);
            assert_eq!(set_name, "set");
        }
        _ => panic!("expected a rename job"),
    }
    let renames = vec![("d/f1.jpg".to_string(), "d/g1.jpg".to_string())];
    let cmds = app.update(Message::Renamed(Ok(renames)));
    assert!(matches!(&cmds[0], Command::LoadPreview(p) if p == "d/g1.jpg"));
    match cmds.last().unwrap() {
        Command::RefreshFiles { displayed, .. } => assert_eq!(displayed.as_deref(), Some("d/g1.jpg")),
        _ => panic!("expected a refresh"),
    }
    let refreshed = vec![
        ImageFile { path: "d/f0.jpg".to_string(), selected: false },
        ImageFile { path: "d/g1.jpg".to_string(), selected: false },
    ];
    let cmds = app.update(Message::FilesRefreshed(Ok(refreshed), Some("d/g1.jpg".to_string())));
    assert_eq!(app.file.displayed, Some(1));
    assert!(matches!(cmds.last().unwrap(), Command::LoadPreview(p) if p == "d/g1.jpg"));
}

#[test]
fn renamed_moves_cached_thumbnails() {
    let (mut app, _) = loaded_app(1, 1);
    app.update(Message::ThumbnailLoaded("d/f0.jpg".to_string(), Ok(vec![9])));
    let cmds = app.update(Message::Renamed(Ok(vec![("d/f0.jpg".to_string(), "d/h.jpg".to_string())])));
    assert!(matches!(&cmds[0], Command::MoveThumbnail { from, to } if from == "d/f0.jpg" && to == "d/h.jpg"));
    assert_eq!(app.thumbnails.cached, vec!["d/h.jpg".to_string()]);
}

#[test]
fn errors_are_reported_rename_first() {
    let (mut app, _) = loaded_app(1, 1);
    assert!(app.error_message().is_none());
    app.update(Message::FilesLoaded(Err(FileError::InvalidRegex("bad".to_string()))));
    let (kind, msg) = app.error_message().unwrap();
    assert_eq!(kind, ErrorKind::Files);
    assert_eq!(msg, "Invalid regular expression: bad");
    app.update(Message::Renamed(Err(RenameError::DuplicateFileNames)));
    let (kind, msg) = app.error_message().unwrap();
    assert_eq!(kind, ErrorKind::Rename);
    assert_eq!(msg, "Some files would be renamed to identical names");
}

#[test]
fn preview_messages() {
    let (mut app, _) = loaded_app(1, 1);
    let cmds = app.update(Message::PreviewLoaded(Ok(vec![1])));
    assert!(matches!(&cmds[0], Command::ShowPreview(b) if b == &vec![1]));
    assert_eq!(app.preview.status, Ok(None));
    assert_eq!(app.preview.status_text(), "Select an image");
    app.update(Message::PreviewLoaded(Err("oops".to_string())));
    assert_eq!(app.preview.status, Err("oops".to_string()));
    assert_eq!(app.preview.status_text(), "Error: oops");
}

#[test]
fn max_loading_is_a_third_of_threads() {
    assert_eq!(max_loading_for(Some(12)), 4);
    assert_eq!(max_loading_for(Some(2)), 1);
    assert_eq!(max_loading_for(None), 1);
}

#[test]
fn button_looks() {
    assert_eq!(
        button_highlighting(false, false, ButtonStatus::Active),
        ButtonLook { background: PaletteSlot::BackgroundBase, text: PaletteSlot::BackgroundBase }
    );
    assert_eq!(
        button_highlighting(true, true, ButtonStatus::Hovered),
        ButtonLook { background: PaletteSlot::PrimaryBase, text: PaletteSlot::PrimaryStrong }
    );
    assert_eq!(
        button_highlighting(false, true, ButtonStatus::Pressed),
        ButtonLook { background: PaletteSlot::PrimaryBase, text: PaletteSlot::PrimaryBase }
    );
    assert_eq!(
        button_highlighting(true, false, ButtonStatus::Disabled),
        ButtonLook { background: PaletteSlot::BackgroundWeak, text: PaletteSlot::BackgroundWeak }
    );
}
