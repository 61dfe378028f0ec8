use numera::numbering_mode::{zoom_title, ImageOutcome, NumberingMode};
use numera::numbering_session::{
    AutonomousProgressSnapshot, NumberingSession, SessionCursor,
};
use numera::numbering_state::{is_undo_key, NumberingState};
use numera::ocr_setup::StickerTemplate;
use numera::event_config::NormalizedRect;
use numera::paths::FilePath;
use numera::score::Score;
use numera::template_search::GrayImage;

fn path(s: &str) -> FilePath {
    FilePath::parse(s.as_bytes())
}

fn shown(list: &[FilePath]) -> Vec<String> {
    list.iter().map(|p| p.display_text()).collect()
}

fn state(images: &[&str]) -> NumberingState {
    let mut state = NumberingState::new();
    state.load_folder(path("/in"), Ok(images.iter().map(|s| path(s)).collect()));
    state
}

/// Confirms what was typed, and moves the file.
fn confirm(state: &mut NumberingState, number: &str) -> Result<String, String> {
    state.input_buffer = number.to_string();
    let request = state.confirm_number()?;
    let target = state.name_target(request)?;
    let new_path = target.operation.new_path.display_text();
    state.record_move(target);
    Ok(new_path)
}

#[test]
fn folders_are_loaded_or_not() {
    let mut s = state(&["/in/a.jpg", "/in/b.jpg"]);
    assert_eq!(s.status_message, "Loaded 2 images");
    assert!(s.current_image().unwrap().same(&path("/in/a.jpg")));
    s.load_folder(path("/other"), Err("cannot be read".to_string()));
    assert_eq!(s.status_message, "cannot be read");
    assert!(s.image_paths.is_empty());
    assert!(s.current_image().is_none());
}

#[test]
fn images_are_walked_through() {
    let mut s = state(&["a", "b"]);
    s.input_buffer = "8".to_string();
    s.prev_image();
    assert_eq!((s.current_index, s.input_buffer.as_str()), (0, "8"));
    s.next_image();
    assert_eq!((s.current_index, s.input_buffer.as_str()), (1, ""));
    s.next_image();
    assert_eq!(s.current_index, 1);
    s.prev_image();
    assert_eq!(s.current_index, 0);
}

#[test]
fn numbers_move_files_into_folders() {
    let mut s = state(&["/in/a.jpg", "/in/b.jpg"]);
    assert_eq!(confirm(&mut s, " 82 ").unwrap(), "/in/82/a.jpg");
    assert_eq!(s.status_message, "Moved to 82/. 1 remaining");
    assert_eq!(s.progress(), (1, 2));
    assert_eq!(s.progress_text(), "Progress: 1/2 (1 remaining)");
    assert_eq!(confirm(&mut s, "82").unwrap(), "/in/82/b.jpg");
    assert_eq!(s.status_message, "All images processed!");
    assert_eq!(s.remaining(), 0);
}

#[test]
fn renamed_files_get_the_number_as_their_name() {
    let mut s = state(&["/in/a.JPG", "/in/b", "/in/c.png"]);
    s.rename_to_number = true;
    assert_eq!(confirm(&mut s, "82").unwrap(), "/in/82/82.JPG");
    assert_eq!(s.status_message, "Moved and renamed to 82.JPG in 82/. 2 remaining");
    s.move_to_folder = false;
    assert_eq!(confirm(&mut s, "82").unwrap(), "/in/82 (2).jpg");
    assert_eq!(s.status_message, "Renamed to 82 (2).jpg. 1 remaining");
    assert_eq!(confirm(&mut s, "082").unwrap(), "/in/082 (3).png");
    assert_eq!(s.times_given(82), 3);
}

#[test]
fn what_cannot_be_confirmed_is_told() {
    let mut s = NumberingState::new();
    assert_eq!(s.status_message, "Open a folder to begin numbering");
    assert_eq!(confirm(&mut s, " ").unwrap_err(), "Please enter a number");
    assert_eq!(confirm(&mut s, "8").unwrap_err(), "No folder selected");
    let mut s = state(&[]);
    assert_eq!(confirm(&mut s, "8").unwrap_err(), "No image selected");
    let mut s = state(&["a"]);
    s.move_to_folder = false;
    assert_eq!(
        confirm(&mut s, "8").unwrap_err(),
        "Enable 'Move to folder' or 'Rename to number' (or both)"
    );
    s.rename_to_number = true;
    assert_eq!(confirm(&mut s, "8a").unwrap_err(), "'8a' is not a valid number");
    let mut s = state(&["a/.."]);
    assert_eq!(confirm(&mut s, "8").unwrap_err(), "Invalid filename");
}

#[test]
fn the_last_move_can_be_undone() {
    let mut s = state(&["/in/a", "/in/b"]);
    s.rename_to_number = true;
    confirm(&mut s, "82").unwrap();
    assert_eq!(s.times_given(82), 1);
    let op = s.undo().unwrap();
    assert!(op.original_path.same(&path("/in/a")));
    s.restore(op);
    assert_eq!(shown(&s.image_paths), vec!["/in/a", "/in/b"]);
    assert_eq!(s.times_given(82), 0);
    assert_eq!(s.status_message, "Undid move of 82");
    assert_eq!(s.progress(), (0, 2));
    assert_eq!(s.undo().unwrap_err(), "Nothing to undo");
}

#[test]
fn undoing_the_last_image_puts_it_before_the_others() {
    let mut s = state(&["/in/a", "/in/b"]);
    s.next_image();
    confirm(&mut s, "82").unwrap();
    let op = s.undo().unwrap();
    s.restore(op);
    assert_eq!(shown(&s.image_paths), vec!["/in/b", "/in/a"]);
}

#[test]
fn completed_images_leave_the_queue() {
    let mut s = state(&["a", "b", "c"]);
    s.next_image();
    s.input_buffer = "8".to_string();
    assert!(!s.remove_completed_paths(&vec![path("a"), path("x")]));
    assert!(s.current_image().unwrap().same(&path("b")));
    assert_eq!(
        s.status_message,
        "Removed 1 already-numbered image from the manual queue"
    );
    assert_eq!(s.input_buffer, "");
    assert!(s.remove_completed_paths(&vec![path("b"), path("c")]));
    assert_eq!(
        s.status_message,
        "Removed 2 already-numbered images from the manual queue"
    );
    assert!(!s.remove_completed_paths(&vec![path("b")]));
}

#[test]
fn review_images_are_shown() {
    let mut s = state(&["a", "b"]);
    assert!(s.open_review_image(path("b"), true));
    assert_eq!(s.current_index, 1);
    assert!(s.open_review_image(path("d/c.jpg"), true));
    assert_eq!(shown(&s.image_paths), vec!["d/c.jpg", "a", "b"]);
    assert_eq!(s.current_index, 0);
    assert_eq!(s.status_message, "Opened review image: c.jpg");
    assert!(!s.open_review_image(path("gone"), false));
    assert_eq!(s.status_message, "Review image is no longer available: gone");
}

#[test]
fn neighbours_are_made_ready() {
    let mut s = state(&["0", "1", "2", "3", "4", "5"]);
    s.current_index = 2;
    let (first, then) = s.preload_adjacent();
    assert_eq!(shown(&first), vec!["1", "3"]);
    assert_eq!(shown(&then), vec!["4", "5", "0"]);
    s.current_index = 0;
    let (first, then) = s.preload_adjacent();
    assert_eq!(shown(&first), vec!["1"]);
    assert_eq!(shown(&then), vec!["2", "3"]);
}

#[test]
fn undo_has_a_key() {
    assert!(is_undo_key(true, false, "z"));
    assert!(is_undo_key(false, true, "Z"));
    assert!(!is_undo_key(false, false, "z"));
    assert!(!is_undo_key(true, false, "y"));
}

#[test]
fn completions_are_told_once() {
    let mut session = NumberingSession::new();
    session.set_source_dir(path("/in"));
    let seen = session.changes_since(0, 0, 0, 0);
    assert!(seen.source_changed);
    session.mark_completed(path("a"));
    session.mark_completed(path("b"));
    session.mark_completed(path("a"));
    let news = session.changes_since(seen.source_revision, seen.completed_revision, 0, 0);
    assert_eq!(shown(&news.completed_paths), vec!["a", "b"]);
    let later = session.changes_since(seen.source_revision, news.completed_revision, 0, 0);
    assert!(later.completed_paths.is_empty());
    assert!(!later.has_news());
    assert!(session.is_completed(&path("a")));
    assert!(!session.is_completed(&path("c")));
}

#[test]
fn a_new_folder_starts_a_session_anew() {
    let mut session = NumberingSession::new();
    assert!(session.source_dir().is_none());
    session.mark_completed(path("a"));
    let changes = session.set_source_dir(path("/in"));
    assert!(session.source_dir().unwrap().same(&path("/in")));
    assert!(!session.is_completed(&path("a")));
    assert!(changes.completed_paths.is_empty());
}

#[test]
fn windows_catch_up_with_the_session() {
    let mut session = NumberingSession::new();
    let mut cursor = SessionCursor::new();
    session.set_source_dir(path("/in"));
    let changes = session.changes_since(0, 0, 0, 0);
    let effects = cursor.apply_session_changes(changes);
    assert!(effects.load.unwrap().same(&path("/in")));
    let mut progress = AutonomousProgressSnapshot::default();
    progress.running = true;
    progress.total = 5;
    progress.active_files = vec!["a".to_string(), "b".to_string()];
    progress.last_message = "at work".to_string();
    session.publish_autonomous_progress(progress);
    session.request_manual_open(path("r"));
    session.mark_completed(path("c"));
    let changes = session.changes_since(
        cursor.source_revision,
        cursor.completed_revision,
        cursor.autonomous_progress_revision,
        cursor.manual_open_revision,
    );
    assert!(changes.has_news());
    let effects = cursor.apply_session_changes(changes);
    assert!(effects.load.is_none());
    assert_eq!(shown(&effects.remove), vec!["c"]);
    assert!(effects.open.unwrap().same(&path("r")));
    assert_eq!(cursor.manual_open_revision, session.manual_open_revision());
    let p = &cursor.autonomous_progress;
    assert_eq!(p.counts_text(), "0/5 assigned 0 review 0 done 0 missing 0 failed 0");
    assert_eq!(p.activity_text(), "at work - a, b");
    assert_eq!(AutonomousProgressSnapshot::default().activity_text(), "Idle");
}

#[test]
fn only_the_latest_preview_is_shown() {
    let mut mode = NumberingMode { state: state(&["a", "b"]), preview_version: usize::MAX };
    let first = mode.load_current_image().unwrap();
    assert_eq!(first.version, 0);
    mode.state.next_image();
    let second = mode.load_current_image().unwrap();
    assert!(second.path.same(&path("b")));
    assert_eq!(mode.finish_preview(&first, true), ImageOutcome::Outdated);
    assert_eq!(mode.finish_preview(&second, true), ImageOutcome::Show);
    assert_eq!(mode.finish_preview(&second, false), ImageOutcome::Remove);
    mode.state.image_paths.clear();
    assert!(mode.load_current_image().is_none());
}

#[test]
fn the_numbering_window_says_what_happened() {
    let mut mode = NumberingMode { state: state(&["a"]), preview_version: 0 };
    assert!(mode.template_chosen(&path("d/t.png"), Ok(())));
    assert_eq!(mode.state.status_message, "Sticker template loaded: t.png");
    assert!(!mode.template_chosen(&path("t"), Err("too small".to_string())));
    assert_eq!(mode.state.status_message, "Template load failed: too small");
    mode.template_cleared();
    assert_eq!(mode.state.status_message, "Sticker template cleared");
    mode.autonomous_window_opened(Ok(()));
    assert_eq!(mode.state.status_message, "Autonomous numbering window opened");
    mode.autonomous_window_opened(Err("no display".to_string()));
    assert_eq!(
        mode.state.status_message,
        "Failed to open autonomous numbering window: no display"
    );
    mode.confirm_failed("Please enter a number");
    assert_eq!(mode.state.status_message, "Error: Please enter a number");
    mode.undo_failed("Nothing to undo");
    assert_eq!(mode.state.status_message, "Undo failed: Nothing to undo");
}

#[test]
fn the_toolbar_shows_progress_and_template() {
    let mode = NumberingMode { state: state(&["a"]), preview_version: 0 };
    let view = mode.render_toolbar(&None);
    assert_eq!(view.progress, "Progress: 0/1 (1 remaining)");
    assert!(!view.can_clear_sticker && view.template.is_none());
    let zero = Score { bits: 0 };
    let template = StickerTemplate {
        path: path("d/t.png"),
        grayscale: GrayImage { width: 0, height: 0, values: vec![] },
        number_roi: NormalizedRect { x: zero, y: zero, w: zero, h: zero },
    };
    let view = mode.render_toolbar(&Some(template));
    assert!(view.can_clear_sticker);
    assert_eq!(view.template, Some("Template: t.png".to_string()));
    let title = zoom_title(Score { bits: 0x42c8_0000 });
    assert_eq!(title.parts.len(), 3);
    assert_eq!(title.parts[1].number.unwrap().places, 0);
}

#[test]
fn progress_goes_up_and_down() {
    let mut s = state(&["/in/a", "/in/b", "/in/c"]);
    s.rename_to_number = true;
    assert_eq!((s.progress(), s.remaining()), ((0, 3), 3));
    confirm(&mut s, "1").unwrap();
    confirm(&mut s, "2").unwrap();
    assert_eq!((s.progress(), s.remaining()), ((2, 3), 1));
    let op = s.undo().unwrap();
    s.restore(op);
    assert_eq!((s.progress(), s.remaining()), ((1, 3), 2));
    confirm(&mut s, "3").unwrap();
    confirm(&mut s, "4").unwrap();
    assert_eq!((s.progress(), s.remaining()), ((3, 3), 0));
}

#[test]
fn completions_between_two_looks_are_told_in_order() {
    let mut session = NumberingSession::new();
    session.mark_completed(path("x"));
    let seen = session.changes_since(0, 0, 0, 0);
    for name in ["c", "a", "b"] {
        session.mark_completed(path(name));
    }
    let news = session.changes_since(
        seen.source_revision,
        seen.completed_revision,
        seen.autonomous_progress_revision,
        seen.manual_open_revision,
    );
    assert!(!news.source_changed && !news.autonomous_progress_changed);
    assert_eq!(shown(&news.completed_paths), ["c", "a", "b"]);
    assert!(news.manual_open_path.is_none());
    let later = session.changes_since(
        news.source_revision,
        news.completed_revision,
        news.autonomous_progress_revision,
        news.manual_open_revision,
    );
    assert!(later.completed_paths.is_empty());
}
