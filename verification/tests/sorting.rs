use numera::db::{identity_of, image_row, is_image_processed, optional_path, ProcessingDb};
use numera::image_loader::{discover_images, is_supported_image, should_skip_dir, DirEntry};
use numera::numbered_sort::{leading_number, NumberedOutcome, NumberedSortSummary};
use numera::paths::FilePath;
use numera::sorter::{
    destination_folder, next_candidate, place_file, PlaceOutcome, PlaceStep, Placement, SortMode,
    MAX_ATTEMPTS,
};
use numera::vector_experiment::{format_summary, unique_test_dir};

fn path(s: &str) -> FilePath {
    FilePath::parse(s.as_bytes())
}

fn folder(status: &str, number: Option<&str>) -> String {
    destination_folder(&path("/out"), status, number).display_text()
}

/// What a step does, and where.
fn step_text(step: PlaceStep) -> String {
    match step {
        PlaceStep::CopyNew(p) => format!("copy {}", p.display_text()),
        PlaceStep::CopyNewAndRemove(p) => format!("copy and remove {}", p.display_text()),
        PlaceStep::Rename(p) => format!("rename {}", p.display_text()),
        PlaceStep::Done(p) => format!("done {}", p.display_text()),
        PlaceStep::NoFreeName => "no free name".to_string(),
        PlaceStep::GiveUp => "give up".to_string(),
    }
}

#[test]
fn statuses_have_their_folders() {
    assert_eq!(folder("assigned_by_ocr", Some("82")), "/out/82");
    assert_eq!(folder("assigned_by_visual_match", Some("7")), "/out/7");
    assert_eq!(folder("assigned_by_ocr", None), "/out/_review");
    assert_eq!(folder("ambiguous", Some("82")), "/out/_ambiguous");
    assert_eq!(folder("no_sticker_found", None), "/out/_no_sticker");
    assert_eq!(folder("needs_review", Some("82")), "/out/_review");
    assert_eq!(folder("ocr_failed", None), "/out/_review");
    assert_eq!(folder("", None), "/out/_review");
}

#[test]
fn taken_names_are_passed_over() {
    let next = |attempt| next_candidate(&path("/out/82"), b"a.jpg", attempt).map(|p| p.display_text());
    assert_eq!(next(0).unwrap(), "/out/82/a.jpg");
    assert_eq!(next(1).unwrap(), "/out/82/a_1.jpg");
    assert_eq!(next(9_999).unwrap(), "/out/82/a_9999.jpg");
    assert!(next(MAX_ATTEMPTS).is_none());
}

#[test]
fn files_are_copied_to_the_first_free_name() {
    let source = path("/in/a.jpg");
    let mut placement =
        place_file(&source, &path("/out"), "assigned_by_ocr", Some("82"), SortMode::Copy).unwrap();
    assert_eq!(step_text(placement.due_step()), "copy /out/82/a.jpg");
    assert_eq!(step_text(placement.advance(PlaceOutcome::Taken)), "copy /out/82/a_1.jpg");
    assert_eq!(step_text(placement.advance(PlaceOutcome::Placed)), "done /out/82/a_1.jpg");
    assert!(place_file(&path("/"), &path("/out"), "ambiguous", None, SortMode::Copy).is_none());
}

#[test]
fn files_are_moved_across_devices_by_copying() {
    let mut placement = Placement::begin(path("/out/82"), b"a.jpg".to_vec(), SortMode::Move);
    assert_eq!(step_text(placement.due_step()), "rename /out/82/a.jpg");
    assert_eq!(step_text(placement.advance(PlaceOutcome::Taken)), "rename /out/82/a_1.jpg");
    assert_eq!(
        step_text(placement.advance(PlaceOutcome::OtherDevice)),
        "copy and remove /out/82/a_1.jpg"
    );
    assert_eq!(step_text(placement.advance(PlaceOutcome::Placed)), "done /out/82/a_1.jpg");
}

#[test]
fn placing_ends_when_it_fails_or_names_run_out() {
    let mut placement = Placement::begin(path("/out/82"), b"a.jpg".to_vec(), SortMode::Copy);
    assert_eq!(step_text(placement.advance(PlaceOutcome::Failed)), "give up");
    let mut placement = Placement::begin(path("/out/82"), b"a.jpg".to_vec(), SortMode::Copy);
    let mut attempts = 1;
    while !matches!(placement.advance(PlaceOutcome::Taken), PlaceStep::NoFreeName) {
        attempts += 1;
    }
    assert_eq!(attempts, MAX_ATTEMPTS);
}

#[test]
fn images_are_searched_for_in_folders() {
    let entries = vec![
        DirEntry::Dir(
            path("/in/day"),
            vec![
                DirEntry::File(path("/in/day/b.JPEG")),
                DirEntry::Dir(path("/in/day/_debug"), vec![DirEntry::File(path("/in/day/_debug/x.png"))]),
            ],
        ),
        DirEntry::File(path("/in/a.png")),
        DirEntry::File(path("/in/list.txt")),
        DirEntry::Other(path("/in/link.jpg")),
        DirEntry::Dir(path("/in/_review"), vec![DirEntry::File(path("/in/_review/y.jpg"))]),
    ];
    let found: Vec<String> = discover_images(&entries).iter().map(|p| p.display_text()).collect();
    assert_eq!(found, ["/in/a.png", "/in/day/b.JPEG"]);
}

#[test]
fn images_are_found_in_any_order() {
    let mut entries = vec![
        DirEntry::File(path("/in/c.jpg")),
        DirEntry::File(path("/in/a.jpg")),
        DirEntry::File(path("/in/b.jpg")),
    ];
    let names = |entries: &Vec<DirEntry>| -> Vec<String> {
        discover_images(entries).iter().map(|p| p.display_text()).collect()
    };
    let first = names(&entries);
    entries.reverse();
    assert_eq!(names(&entries), first);
    assert_eq!(first, ["/in/a.jpg", "/in/b.jpg", "/in/c.jpg"]);
}

#[test]
fn marked_folders_are_left_out() {
    for name in ["_review", "_ambiguous", "_no_sticker", "_debug"] {
        assert!(should_skip_dir(&path("/in").join_text(name)), "{}", name);
    }
    assert!(!should_skip_dir(&path("/in/82")));
    assert!(!should_skip_dir(&path("/in/review")));
    assert!(is_supported_image(&path("a.webp")) == is_supported_image(&path("a.WEBP")));
    assert!(!is_supported_image(&path("jpg")));
}

#[test]
fn numbered_files_start_with_their_number() {
    for name in ["82.jpg", "82 (2).jpg", "82-001.jpg", "82-002 (2).jpg"] {
        assert_eq!(leading_number(name).unwrap(), "82", "{}", name);
    }
    assert_eq!(leading_number("007_a.png").unwrap(), "007");
    assert!(leading_number("a82.jpg").is_none());
    assert!(leading_number("").is_none());
}

#[test]
fn images_are_kept_under_their_path() {
    let row = image_row(&path("/in/a.jpg"));
    assert_eq!((row.file_name.as_str(), row.file_path.as_str()), ("a.jpg", "/in/a.jpg"));
    assert_eq!(image_row(&path("/")).file_name, "image");
    assert_eq!(ProcessingDb::open(path("/out/events.db")).path().display_text(), "/out/events.db");
    assert_eq!(optional_path(&Some(path("/out/x.png"))).unwrap(), "/out/x.png");
    assert!(optional_path(&None).is_none());
}

#[test]
fn images_are_processed_once_they_have_a_date() {
    let date = Some("2024-05-04 10:00:00".to_string());
    assert!(identity_of(7, &date).already_processed);
    assert!(!identity_of(7, &None).already_processed);
    assert_eq!(identity_of(7, &None).id, 7);
    assert!(is_image_processed(&Some(date)));
    assert!(!is_image_processed(&Some(None)));
    assert!(!is_image_processed(&None));
}

#[test]
fn experiments_write_their_summary() {
    assert_eq!(unique_test_dir(1234).display_text(), "runs/vector-test-1234");
    let report = format_summary(
        &vec![
            ("a".to_string(), "0.250000".to_string()),
            ("b".to_string(), "0.500000".to_string()),
        ],
        &vec![(2, "b".to_string())],
    );
    assert_eq!(
        report,
        "distance query:\n  a: distance=0.250000\n  b: distance=0.500000\nindexed top-k:\n  2: b"
    );
}

#[test]
fn numbered_files_are_counted() {
    let mut summary = NumberedSortSummary::begin(4);
    summary.count(NumberedOutcome::Sorted { new_folder: true });
    summary.count(NumberedOutcome::Sorted { new_folder: false });
    summary.count(NumberedOutcome::Skipped);
    summary.count(NumberedOutcome::Failed);
    assert_eq!(
        (summary.discovered, summary.sorted, summary.failed, summary.skipped),
        (4, 2, 1, 1)
    );
    assert_eq!(summary.folders_created, 1);
}
