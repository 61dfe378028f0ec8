use numera::autonomous::{
    after_move_step, discover_numbering_images, discovery_failed, item_message, move_into_folder, path_file_name,
    worker_count, AutonomousNumberingItemResult, AutonomousNumberingItemStatus,
    AutonomousNumberingSummary, AutonomousRun, ItemEvent, ItemRules, ItemStep, MoveEvent,
    MoveStep,
};
use numera::autonomous_window::{
    final_status_message, format_duration, remaining_time, result_details, result_label,
    review_path, AutonomousNumberingWindow, AutonomousUiProgress, RemainingTime,
    MAX_RECENT_RESULTS,
};
use numera::image_loader::DirEntry;
use numera::note::Note;
use numera::numbering_session::{NumberingSession, NumberingSessionChanges};
use numera::ocr_result::OcrResult;
use numera::paths::FilePath;
use numera::score::Score;
use numera::sorter::MAX_ATTEMPTS;

fn path(s: &str) -> FilePath {
    FilePath::parse(s.as_bytes())
}

fn score(v: f32) -> Score {
    Score { bits: v.to_bits() }
}

fn shown(list: &[FilePath]) -> Vec<String> {
    list.iter().map(|p| p.display_text()).collect()
}

/// The words of a note, with its numbers in place.
fn said(note: &Note) -> String {
    let mut all = String::new();
    for part in &note.parts {
        match &part.number {
            Some(n) => all += &format!(
                "{:.*}",
                n.places as usize,
                f32::from_bits(n.score.bits)
            ),
            None => all += &part.words,
        }
    }
    all
}

fn result(
    name: &str,
    status: AutonomousNumberingItemStatus,
    destination: Option<&str>,
) -> AutonomousNumberingItemResult {
    AutonomousNumberingItemResult {
        file_name: name.to_string(),
        status,
        number: None,
        confidence: None,
        destination: destination.map(path),
        error: None,
    }
}

fn rules() -> ItemRules {
    ItemRules { source_dir: path("/in"), min_confidence: score(0.85) }
}

fn reading(text: &str, confidence: f32) -> Option<OcrResult> {
    Some(OcrResult {
        text: text.to_string(),
        confidence: score(confidence),
        all_detections: vec![],
    })
}

/// The folder that a reading sends an image to, whether its number is assigned,
/// and the number.
fn sent(ocr: Option<OcrResult>) -> (String, bool, Option<String>) {
    match rules().process_one(
        &path("/in/a.jpg"),
        ItemStep::Recognize,
        ItemEvent::Recognized { ocr },
    ) {
        Some(ItemStep::Move { folder, pending }) => {
            (folder.display_text(), pending.assigned, pending.number)
        }
        other => panic!("{:?}", other),
    }
}

#[test]
fn numbering_images_stand_directly_in_the_folder() {
    let entries = vec![
        DirEntry::File(path("/in/b.JPG")),
        DirEntry::File(path("/in/notes.txt")),
        DirEntry::Dir(path("/in/82"), vec![DirEntry::File(path("/in/82/c.jpg"))]),
        DirEntry::File(path("/in/a.png")),
        DirEntry::Other(path("/in/link.jpg")),
    ];
    assert_eq!(shown(&discover_numbering_images(&entries)), ["/in/a.png", "/in/b.JPG"]);
    assert!(discover_numbering_images(&vec![]).is_empty());
}

#[test]
fn files_without_a_name_are_shown_by_a_mark() {
    assert_eq!(path_file_name(&path("/in/a.jpg")), "a.jpg");
    assert_eq!(path_file_name(&path("/")), "?");
    assert_eq!(path_file_name(&FilePath::parse(b"/in/\xff.jpg")), "?");
}

#[test]
fn workers_are_at_most_four() {
    assert_eq!(worker_count(8, 16, 100), 4);
    assert_eq!(worker_count(8, 2, 100), 2);
    assert_eq!(worker_count(8, 16, 3), 3);
    assert_eq!(worker_count(0, 16, 3), 1);
    assert_eq!(worker_count(8, 16, 0), 0);
}

#[test]
fn runs_give_out_images_and_count_outcomes() {
    let mut run = AutonomousRun::begin(vec![path("/in/a.jpg"), path("/in/b.jpg")], 2);
    assert_eq!(run.total(), 2);
    assert_eq!(run.ready().last_message, "Ready - 2 images discovered");
    let (first, progress) = run.claim(0, false).unwrap();
    assert_eq!(first.display_text(), "/in/b.jpg");
    assert_eq!(progress.last_message, "Processing b.jpg");
    assert_eq!(progress.active_files, ["b.jpg"]);
    assert!(run.claim(1, true).is_none());
    let (second, progress) = run.claim(1, false).unwrap();
    assert_eq!(second.display_text(), "/in/a.jpg");
    assert_eq!(progress.active_files, ["b.jpg", "a.jpg"]);
    assert!(run.claim(0, false).is_none());

    let mut assigned = result("b.jpg", AutonomousNumberingItemStatus::Assigned, Some("/in/82/b.jpg"));
    assigned.number = Some("82".to_string());
    let progress = run.complete(0, assigned);
    assert_eq!(progress.last_message, "Assigned b.jpg to 82");
    assert_eq!((progress.completed, progress.assigned, progress.total), (1, 1, 2));
    assert_eq!(progress.active_files, ["a.jpg"]);
    let progress = run.complete(1, result("a.jpg", AutonomousNumberingItemStatus::SkippedMissing, None));
    assert_eq!((progress.completed, progress.skipped_missing), (2, 1));
    assert!(progress.active_files.is_empty());
    assert_eq!(
        run.summary(false),
        AutonomousNumberingSummary {
            discovered: 2,
            processed: 2,
            assigned: 1,
            needs_review: 0,
            already_completed: 0,
            skipped_missing: 1,
            failed: 0,
            cancelled: false,
        }
    );
}

#[test]
fn every_outcome_is_counted_once() {
    let found = (0..5).map(|i| path(&format!("/in/{}.jpg", i))).collect();
    let mut run = AutonomousRun::begin(found, 1);
    for status in [
        AutonomousNumberingItemStatus::Assigned,
        AutonomousNumberingItemStatus::NeedsReview,
        AutonomousNumberingItemStatus::AlreadyCompleted,
        AutonomousNumberingItemStatus::SkippedMissing,
        AutonomousNumberingItemStatus::Failed,
    ] {
        assert!(run.claim(0, false).is_some());
        let before = run.counters.completed;
        let progress = run.complete(0, result("x", status, None));
        assert_eq!(progress.completed, before + 1);
        assert_eq!(run.summary(false).processed, before + 1);
    }
    let c = run.counters;
    assert_eq!(
        (c.assigned, c.needs_review, c.already_completed, c.skipped_missing, c.failed),
        (1, 1, 1, 1, 1)
    );
}

#[test]
fn runs_without_reading_fail_as_a_whole() {
    let mut run = AutonomousRun::begin(vec![path("/in/a.jpg"), path("/in/b.jpg")], 2);
    let progress = run.ocr_unavailable();
    assert_eq!((progress.completed, progress.failed, progress.total), (2, 2, 2));
    assert_eq!(progress.last_message, "OCR engine is unavailable");
    let item = progress.last_result.unwrap();
    assert_eq!(item.file_name, "OCR");
    assert_eq!(item.error.unwrap(), "OCR engine is unavailable");
    assert_eq!(run.summary(false).failed, 2);
}

#[test]
fn runs_over_unreadable_folders_fail() {
    let (progress, summary) = discovery_failed(&path("/in"), "cannot be read");
    assert_eq!((progress.total, progress.failed), (0, 1));
    assert_eq!(progress.last_message, "cannot be read");
    assert_eq!(progress.last_result.unwrap().file_name, "/in");
    assert_eq!((summary.discovered, summary.processed, summary.failed), (0, 0, 1));
}

#[test]
fn outcomes_are_told() {
    let told = |status| item_message(&result("a.jpg", status, None));
    assert_eq!(told(AutonomousNumberingItemStatus::Assigned), "Assigned a.jpg to ?");
    assert_eq!(told(AutonomousNumberingItemStatus::NeedsReview), "Left a.jpg for review");
    assert_eq!(
        told(AutonomousNumberingItemStatus::AlreadyCompleted),
        "Skipped already-numbered file a.jpg"
    );
    assert_eq!(told(AutonomousNumberingItemStatus::SkippedMissing), "Skipped missing file a.jpg");
    assert_eq!(told(AutonomousNumberingItemStatus::Failed), "Failed a.jpg: unknown error");
    let mut failed = result("a.jpg", AutonomousNumberingItemStatus::Failed, None);
    failed.error = Some("disk full".to_string());
    assert_eq!(item_message(&failed), "Failed a.jpg: disk full");
}

#[test]
fn done_and_missing_images_are_skipped() {
    let image = path("/in/a.jpg");
    match rules().start(&image, true) {
        ItemStep::Finished { result, completed } => {
            assert_eq!(result.status, AutonomousNumberingItemStatus::AlreadyCompleted);
            assert!(!completed);
        }
        other => panic!("{:?}", other),
    }
    let step = rules().start(&image, false);
    assert!(matches!(step, ItemStep::CheckFile));
    match rules().process_one(&image, step, ItemEvent::FileChecked { exists: false }) {
        Some(ItemStep::Finished { result, completed }) => {
            assert_eq!(result.status, AutonomousNumberingItemStatus::SkippedMissing);
            assert!(!completed);
        }
        other => panic!("{:?}", other),
    }
    assert!(matches!(
        rules().process_one(&image, ItemStep::CheckFile, ItemEvent::FileChecked { exists: true }),
        Some(ItemStep::Recognize)
    ));
    assert!(rules().process_one(&image, ItemStep::CheckFile, ItemEvent::MoveNotFound).is_none());
}

#[test]
fn numbers_are_assigned_only_when_sure() {
    let number = |n: &str| Some(n.to_string());
    assert_eq!(sent(reading("No. 82", 0.85)), ("/in/82".to_string(), true, number("82")));
    assert_eq!(sent(reading("82", 0.84)), ("/in/_review".to_string(), false, number("82")));
    assert_eq!(sent(reading("none", 0.99)), ("/in/_review".to_string(), false, None));
    assert_eq!(sent(None), ("/in/_review".to_string(), false, None));
}

#[test]
fn only_moved_images_are_done() {
    let image = path("/in/a.jpg");
    let moving = |confidence| {
        rules()
            .process_one(
                &image,
                ItemStep::Recognize,
                ItemEvent::Recognized { ocr: reading("82", confidence) },
            )
            .unwrap()
    };
    let ended = |confidence, event| match rules().process_one(&image, moving(confidence), event) {
        Some(ItemStep::Finished { result, completed }) => (result, completed),
        other => panic!("{:?}", other),
    };
    let (end, completed) = ended(0.9, ItemEvent::Moved { destination: path("/in/82/a.jpg") });
    assert!(completed);
    assert_eq!(end.status, AutonomousNumberingItemStatus::Assigned);
    assert_eq!(end.number.unwrap(), "82");
    assert_eq!(end.destination.unwrap().display_text(), "/in/82/a.jpg");
    let (end, completed) = ended(0.5, ItemEvent::Moved { destination: path("/in/_review/a.jpg") });
    assert!(completed);
    assert_eq!(end.status, AutonomousNumberingItemStatus::NeedsReview);
    let (end, completed) = ended(0.9, ItemEvent::MoveNotFound);
    assert!(!completed && end.destination.is_none());
    assert_eq!(end.status, AutonomousNumberingItemStatus::SkippedMissing);
    let (end, completed) = ended(0.9, ItemEvent::MoveFailed { error: "no room".to_string() });
    assert!(!completed && end.destination.is_none());
    assert_eq!(end.status, AutonomousNumberingItemStatus::Failed);
    assert_eq!(end.error.unwrap(), "no room");
}

/// What a step of a move does, and where.
fn move_text(step: &MoveStep) -> String {
    match step {
        MoveStep::Copy { destination, .. } => format!("copy {}", destination.display_text()),
        MoveStep::Remove { destination } => format!("remove for {}", destination.display_text()),
        MoveStep::Moved(destination) => format!("moved {}", destination.display_text()),
        MoveStep::Impossible(why) => why.clone(),
        MoveStep::Failed => "failed".to_string(),
    }
}

#[test]
fn moves_try_one_name_after_the_other() {
    let (source, folder) = (path("/in/a.jpg"), path("/in/82"));
    let next = |step, event| after_move_step(&source, &folder, step, event).unwrap();
    let first = move_into_folder(&source, &folder);
    assert_eq!(move_text(&first), "copy /in/82/a.jpg");
    let second = next(first, MoveEvent::NameTaken);
    assert_eq!(move_text(&second), "copy /in/82/a_1.jpg");
    let copied = next(second, MoveEvent::Copied);
    assert_eq!(move_text(&copied), "remove for /in/82/a_1.jpg");
    assert_eq!(move_text(&next(copied, MoveEvent::SourceGone)), "moved /in/82/a_1.jpg");
    let copied = next(move_into_folder(&source, &folder), MoveEvent::Copied);
    assert_eq!(move_text(&next(copied, MoveEvent::Removed)), "moved /in/82/a.jpg");
    let copied = next(move_into_folder(&source, &folder), MoveEvent::Copied);
    assert_eq!(move_text(&next(copied, MoveEvent::RemoveFailed)), "failed");
    let first = move_into_folder(&source, &folder);
    assert_eq!(move_text(&next(first, MoveEvent::CopyFailed)), "failed");
    let first = move_into_folder(&source, &folder);
    assert!(after_move_step(&source, &folder, first, MoveEvent::Removed).is_none());
    assert_eq!(
        move_text(&move_into_folder(&path("/"), &folder)),
        "source path has no filename: /"
    );
}

#[test]
fn moves_end_when_names_run_out() {
    let (source, folder) = (path("/in/a.jpg"), path("/in/82"));
    let mut step = move_into_folder(&source, &folder);
    let mut tried = 0;
    while let MoveStep::Copy { .. } = step {
        tried += 1;
        step = after_move_step(&source, &folder, step, MoveEvent::NameTaken).unwrap();
    }
    assert_eq!(tried, MAX_ATTEMPTS);
    assert_eq!(move_text(&step), "no free destination filename for /in/a.jpg");
}

#[test]
fn windows_take_over_reports() {
    let mut progress = AutonomousUiProgress::fresh("Scanning source folder...");
    assert_eq!(progress.last_message, "Scanning source folder...");
    let mut run = AutonomousRun::begin((0..20).map(|i| path(&format!("{}.jpg", i))).collect(), 1);
    for i in 0..20 {
        let (claimed, _) = run.claim(0, false).unwrap();
        let status = if i % 2 == 0 {
            AutonomousNumberingItemStatus::NeedsReview
        } else {
            AutonomousNumberingItemStatus::Failed
        };
        let place = if i == 4 { None } else { Some("/in/_review/x.jpg") };
        progress.merge_progress(run.complete(0, result(&path_file_name(&claimed), status, place)));
    }
    assert_eq!(progress.completed, 20);
    assert_eq!(progress.recent_results.len(), MAX_RECENT_RESULTS);
    assert_eq!(progress.recent_results[0].file_name, "0.jpg");
    assert_eq!(progress.review_results.len(), 9);
    assert_eq!(progress.review_results[0].file_name, "1.jpg");
    let snapshot = progress.progress_snapshot(true);
    assert!(snapshot.running);
    assert_eq!((snapshot.completed, snapshot.failed), (20, 10));
    assert_eq!(snapshot.last_message, progress.last_message);
}

#[test]
fn the_end_of_a_run_is_told() {
    let mut summary = AutonomousNumberingSummary {
        discovered: 9,
        processed: 8,
        assigned: 3,
        needs_review: 2,
        already_completed: 1,
        skipped_missing: 1,
        failed: 1,
        cancelled: false,
    };
    assert_eq!(
        final_status_message(&summary, false),
        "Done - 8 of 9 processed, 3 assigned, 2 left for review, 1 already done, 1 missing, 1 failed"
    );
    assert_eq!(
        final_status_message(&summary, true),
        "Stopped - 8 of 9 processed, 3 assigned, 2 left for review, 1 already done, 1 failed"
    );
    summary.cancelled = true;
    assert!(final_status_message(&summary, false).starts_with("Stopped - "));
}

#[test]
fn times_are_told_in_two_units() {
    assert_eq!(format_duration(0), "0s");
    assert_eq!(format_duration(59), "59s");
    assert_eq!(format_duration(61), "1m 1s");
    assert_eq!(format_duration(3600), "1h 0m");
    assert_eq!(format_duration(7384), "2h 3m");
    assert_eq!(remaining_time(false, 3, 9), RemainingTime::Unknown);
    assert_eq!(remaining_time(true, 0, 9), RemainingTime::Unknown);
    assert_eq!(remaining_time(true, 9, 9), RemainingTime::Nothing);
    assert_eq!(
        remaining_time(true, 3, 9),
        RemainingTime::Scaled { completed: 3, remaining: 6 }
    );
}

#[test]
fn results_are_shown_with_their_details() {
    let mut assigned = result("a.jpg", AutonomousNumberingItemStatus::Assigned, Some("/in/82/a.jpg"));
    assigned.number = Some("82".to_string());
    assert_eq!(said(&result_details(&assigned, Some(score(91.0)), true)), " 82 91% -> 82");
    assert_eq!(said(&result_details(&assigned, Some(score(91.0)), false)), " 82 91%");
    assert!(review_path(&assigned).is_none());
    let mut failed = result("b.jpg", AutonomousNumberingItemStatus::Failed, None);
    failed.error = Some("no room".to_string());
    assert_eq!(said(&result_details(&failed, None, true)), " - no room");
    let review = result("c.jpg", AutonomousNumberingItemStatus::NeedsReview, Some("/in/_review/c.jpg"));
    assert_eq!(review_path(&review).unwrap().display_text(), "/in/_review/c.jpg");
    assert_eq!(result_label(AutonomousNumberingItemStatus::Assigned), "Assigned");
    assert_eq!(result_label(AutonomousNumberingItemStatus::NeedsReview), "Review");
    assert_eq!(result_label(AutonomousNumberingItemStatus::AlreadyCompleted), "Done");
    assert_eq!(result_label(AutonomousNumberingItemStatus::SkippedMissing), "Missing");
    assert_eq!(result_label(AutonomousNumberingItemStatus::Failed), "Failed");
}

#[test]
fn runs_are_started_once_for_a_folder() {
    let mut window = AutonomousNumberingWindow::new(None);
    assert_eq!(window.status_message, "Select a source folder");
    assert_eq!(window.source_label(), "Not set");
    assert!(window.start().is_none());
    assert_eq!(window.status_message, "Select a source folder first");
    assert!(!window.render_toolbar().can_start);

    let mut window = AutonomousNumberingWindow::new(Some(path("/photos/in")));
    assert_eq!(window.status_message, "Source: /photos/in");
    let bar = window.render_toolbar();
    assert_eq!((bar.source.as_str(), bar.start_label.as_str()), ("Source: in", "Start"));
    assert!(bar.can_start && bar.can_browse && !bar.can_stop);
    let config = window.start().unwrap();
    assert_eq!(config.source_dir.display_text(), "/photos/in");
    assert_eq!(config.min_confidence, score(0.85));
    assert_eq!(config.max_workers, 8);
    assert_eq!(window.status_message, "Running autonomous numbering...");
    assert!(window.start().is_none());
    let bar = window.render_toolbar();
    assert_eq!(bar.start_label, "Running");
    assert!(!bar.can_start && !bar.can_browse && bar.can_stop);
    window.stop(true);
    assert_eq!(window.status_message, "Stopping after current OCR jobs finish...");
    let summary = AutonomousRun::begin(vec![], 0).summary(true);
    window.finish(AutonomousUiProgress::fresh("done"), summary, true, Some(path("/photos/in")));
    assert!(!window.is_running && window.summary.is_some());
    assert!(window.status_message.starts_with("Stopped - 0 of 0 processed"));
}

#[test]
fn new_folders_wait_for_the_run() {
    let mut session = NumberingSession::new();
    let mut window = AutonomousNumberingWindow::new(Some(path("/one")));
    window.start();
    session.set_source_dir(path("/two"));
    let news = |s: &NumberingSession, w: &AutonomousNumberingWindow| -> NumberingSessionChanges {
        s.changes_since(w.session_source_revision, w.session_completed_revision, 0, 0)
    };
    let changes = news(&session, &window);
    assert!(!window.apply_session_changes(changes));
    assert_eq!(
        window.status_message,
        "Source changed to /two; current run will finish first"
    );
    assert_eq!(window.source_label(), "one");
    window.is_running = false;
    session.set_source_dir(path("/three"));
    let changes = news(&session, &window);
    assert!(window.apply_session_changes(changes));
    assert_eq!(window.status_message, "Source: /three");
    let changes = news(&session, &window);
    assert!(!window.apply_session_changes(changes));
}

#[test]
fn figures_and_results_are_listed() {
    let mut window = AutonomousNumberingWindow::new(Some(path("/in")));
    let mut run = AutonomousRun::begin(vec![path("/in/a.jpg"), path("/in/b.jpg")], 1);
    run.claim(0, false);
    let review = result("b.jpg", AutonomousNumberingItemStatus::NeedsReview, Some("/in/_review/b.jpg"));
    window.progress.merge_progress(run.complete(0, review));
    let rows = window.render_stats(Some(61), None);
    let listed: Vec<String> = rows.iter().map(|r| format!("{}={}", r.label, r.value)).collect();
    assert_eq!(
        listed,
        [
            "Progress=1/2",
            "Assigned=0",
            "Needs Review=1",
            "Already Done=0",
            "Missing=0",
            "Failed=0",
            "Elapsed=1m 1s",
            "ETA=--",
        ]
    );
    let recent = window.render_recent_results(&vec![None]);
    assert_eq!(recent[0].label, "Review");
    assert_eq!(said(&recent[0].details), " -> _review");
    assert!(recent[0].opens.is_some());
    let queue = window.render_review_queue(&vec![Some(score(50.0))]);
    assert_eq!(said(&queue[0].details), " 50%");
    assert_eq!(queue[0].opens.as_ref().unwrap().display_text(), "/in/_review/b.jpg");
    window.review_opened();
    assert_eq!(window.status_message, "Review image opened in the main window");
}
