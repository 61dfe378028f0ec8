use numera::db::ImageIdentity;
use numera::event_config::{EventConfig, EventError, NormalizedRect, RectEdges};
use numera::note::Note;
use numera::ocr_result::{Detection, OcrResult};
use numera::paths::FilePath;
use numera::pipeline::{
    failed_result, process_detection, summarize, DebugPaths, ImageRunResult, ProcessingThresholds,
    Reading, WorkEvent, WorkStep, Worker,
};
use numera::score::Score;
use numera::sticker_matcher::{
    count_inliers, good_matches, FeatureMatch, NearestFeatures, SearchEvent, SearchStep,
    SearchedImage, StickerDetection, StickerMatcher, TemplateError,
};

fn path(s: &str) -> FilePath {
    FilePath::parse(s.as_bytes())
}

fn score(v: f32) -> Score {
    Score { bits: v.to_bits() }
}

fn said(note: &Note) -> String {
    let mut all = String::new();
    for part in &note.parts {
        match &part.number {
            Some(n) => all += &format!("{:.*}", n.places as usize, f32::from_bits(n.score.bits)),
            None => all += &part.words,
        }
    }
    all
}

fn region(x: f32, y: f32, w: f32, h: f32) -> Result<NormalizedRect, EventError> {
    let edges = RectEdges { right: score(x + w), bottom: score(y + h) };
    NormalizedRect::new(score(x), score(y), score(w), score(h), edges)
}

fn event() -> EventConfig {
    EventConfig {
        id: 3,
        name: "race".to_string(),
        sticker_template_path: path("/events/sticker.png"),
        template_width: 400,
        template_height: 200,
        number_region: region(0.25, 0.25, 0.5, 0.5).unwrap(),
    }
}

fn inner_edges() -> RectEdges {
    RectEdges { right: score(0.75), bottom: score(0.75) }
}

fn found(confidence: f32, matches: usize) -> StickerDetection {
    StickerDetection {
        source_path: path("/in/a.jpg"),
        source_width: 4000,
        source_height: 3000,
        found: true,
        match_confidence: score(confidence),
        good_match_count: matches,
        homography_valid: true,
        has_warped_sticker: true,
        note: None,
    }
}

fn not_found(note: Option<&str>) -> StickerDetection {
    StickerDetection {
        found: false,
        homography_valid: false,
        has_warped_sticker: false,
        note: note.map(|n| n.to_string()),
        ..found(0.0, 0)
    }
}

fn reading(text: &str, confidence: f32) -> Reading {
    Reading {
        ocr: Some(OcrResult {
            text: text.to_string(),
            confidence: score(confidence),
            all_detections: vec![
                Detection { text: "No".to_string(), confidence: score(0.5) },
                Detection { text: text.to_string(), confidence: score(confidence) },
            ],
        }),
        variant: "opencv".to_string(),
        combined_confidence: score(0.8),
    }
}

fn nothing_read() -> Reading {
    Reading { ocr: None, variant: "opencv".to_string(), combined_confidence: score(0.0) }
}

fn worker(reprocess: bool, debug_mode: bool) -> Worker {
    Worker {
        event_id: 3,
        output_dir: path("/out"),
        debug_mode,
        reprocess,
        thresholds: ProcessingThresholds::default(),
    }
}

fn no_debug() -> DebugPaths {
    DebugPaths { warped_sticker: None, number_crop: None, thresholded_crop: None }
}

#[test]
fn regions_are_checked() {
    assert!(region(0.0, 0.0, 1.0, 1.0).is_ok());
    assert_eq!(region(f32::NAN, 0.0, 0.5, 0.5).unwrap_err(), EventError::NonFiniteRegion);
    assert_eq!(region(0.0, 0.0, f32::INFINITY, 0.5).unwrap_err(), EventError::NonFiniteRegion);
    assert_eq!(region(-0.1, 0.0, 0.5, 0.5).unwrap_err(), EventError::RegionNotPositive);
    assert_eq!(region(0.0, 0.0, 0.0, 0.5).unwrap_err(), EventError::RegionNotPositive);
    assert_eq!(region(0.0, 0.0, 0.5, -0.0).unwrap_err(), EventError::RegionNotPositive);
    assert_eq!(region(0.6, 0.0, 0.5, 0.5).unwrap_err(), EventError::RegionTooLarge);
    assert_eq!(region(0.0, 0.75, 0.5, 0.5).unwrap_err(), EventError::RegionTooLarge);
    assert!(region(-0.0, 0.0, 0.5, 0.5).is_ok());
}

#[test]
fn events_are_checked() {
    assert!(event().validate(inner_edges()).is_ok());
    let mut flat = event();
    flat.template_height = 0;
    assert_eq!(flat.validate(inner_edges()).unwrap_err(), EventError::TemplateNotPositive);
    let mut nowhere = event();
    nowhere.sticker_template_path = path("");
    assert_eq!(nowhere.validate(inner_edges()).unwrap_err(), EventError::NoTemplatePath);
    let wide = RectEdges { right: score(1.5), bottom: score(0.75) };
    assert_eq!(event().validate(wide).unwrap_err(), EventError::RegionTooLarge);
}

#[test]
fn faults_of_events_have_words() {
    let words = [
        (EventError::NonFiniteRegion, "number region contains a non-finite value"),
        (EventError::RegionNotPositive, "number region must have positive size within 0..1"),
        (EventError::RegionTooLarge, "number region must fit inside the sticker template"),
        (EventError::TemplateNotPositive, "sticker template dimensions must be positive"),
        (EventError::NoTemplatePath, "sticker template path is empty"),
    ];
    for (error, message) in words {
        assert_eq!(error.message(), message);
    }
}

#[test]
fn templates_need_features() {
    assert!(StickerMatcher::new(event(), false, 8).is_ok());
    let empty = StickerMatcher::new(event(), true, 100).unwrap_err();
    assert_eq!(empty, TemplateError::Empty);
    assert_eq!(
        empty.message(&path("/events/sticker.png")),
        "sticker template is empty: /events/sticker.png"
    );
    let poor = StickerMatcher::new(event(), false, 7).unwrap_err();
    assert_eq!(poor, TemplateError::TooFewFeatures(7));
    assert_eq!(poor.message(&path("x")), "sticker template has too few ORB features (7)");
}

/// A feature with its two nearest ones; it is good below the limit.
fn pair(index: i32, distance: f32, limit: f32) -> NearestFeatures {
    let near = |distance| FeatureMatch { query_idx: index, train_idx: index, distance: score(distance) };
    NearestFeatures { matches: vec![near(distance), near(distance + 10.0)], limit: score(limit) }
}

#[test]
fn good_matches_are_clearly_nearest() {
    let mut alone = pair(3, 1.0, 2.0);
    alone.matches.pop();
    let pairs = vec![pair(0, 1.0, 2.0), pair(1, 2.0, 2.0), pair(2, 1.5, 2.0), alone];
    let good: Vec<i32> = good_matches(&pairs).iter().map(|m| m.query_idx).collect();
    assert_eq!(good, [0, 2]);
    assert_eq!(count_inliers(&vec![0, 1, 255, 0]), 2);
}

#[test]
fn searches_end_where_a_step_fails() {
    let matcher = StickerMatcher::new(event(), false, 100).unwrap();
    let image = SearchedImage { path: path("/in/a.jpg"), width: 4000, height: 3000 };
    let why = |step, event| match matcher.detect(&image, step, event) {
        Some(SearchStep::Finished(d)) => {
            assert!(!d.found);
            d.note.unwrap()
        }
        other => panic!("{:?}", other),
    };
    assert_eq!(
        why(SearchStep::FindFeatures, SearchEvent::Features { keypoints: 7, described: true }),
        "not enough image features"
    );
    assert_eq!(
        why(SearchStep::FindFeatures, SearchEvent::Features { keypoints: 70, described: false }),
        "not enough image features"
    );
    let pairs = (0..7).map(|i| pair(i, 1.0, 2.0)).collect();
    assert_eq!(
        why(SearchStep::FindNearest, SearchEvent::Nearest { pairs }),
        "not enough good sticker matches"
    );
    let matches = good_matches(&(0..20).map(|i| pair(i, 1.0, 2.0)).collect());
    assert_eq!(
        why(
            SearchStep::FitGeometry { matches },
            SearchEvent::Geometry { found: false, mask: None }
        ),
        "homography could not be estimated"
    );
}

#[test]
fn searches_go_on_to_a_detection() {
    let matcher = StickerMatcher::new(event(), false, 100).unwrap();
    let image = SearchedImage { path: path("/in/a.jpg"), width: 4000, height: 3000 };
    let go_on = |step, event| matcher.detect(&image, step, event).unwrap();
    let step = go_on(
        SearchStep::FindFeatures,
        SearchEvent::Features { keypoints: 8, described: true },
    );
    assert!(matches!(step, SearchStep::FindNearest));
    let fitted = |mask| {
        let pairs = (0..9).map(|i| pair(i, 1.0, 2.0)).collect();
        let step = go_on(SearchStep::FindNearest, SearchEvent::Nearest { pairs });
        match &step {
            SearchStep::FitGeometry { matches } => assert_eq!(matches.len(), 9),
            other => panic!("{:?}", other),
        }
        go_on(step, SearchEvent::Geometry { found: true, mask })
    };
    let counts = |step| match step {
        SearchStep::ScoreMatch { good_matches, inliers } => (good_matches, inliers),
        other => panic!("{:?}", other),
    };
    assert_eq!(counts(fitted(Some(vec![1, 0, 1]))), (9, 2));
    assert_eq!(counts(fitted(None)), (9, 9));
    let found = |confidence| match go_on(fitted(None), SearchEvent::Scored { confidence }) {
        SearchStep::Finished(d) => d,
        other => panic!("{:?}", other),
    };
    let d = found(score(0.7));
    assert!(d.found && d.homography_valid && d.has_warped_sticker && d.note.is_none());
    assert_eq!((d.source_width, d.source_height, d.good_match_count), (4000, 3000, 9));
    assert_eq!(d.match_confidence, score(0.7));
    assert_eq!(found(score(1.5)).match_confidence, score(1.0));
    assert_eq!(found(score(-0.5)).match_confidence, score(0.0));
}

#[test]
fn searches_go_on_only_with_an_answer() {
    let matcher = StickerMatcher::new(event(), false, 100).unwrap();
    let image = SearchedImage { path: path("/in/a.jpg"), width: 4000, height: 3000 };
    let scored = SearchEvent::Scored { confidence: score(0.7) };
    assert!(matcher.detect(&image, SearchStep::FindFeatures, scored).is_none());
}

#[test]
fn thresholds_have_defaults() {
    let t = ProcessingThresholds::default();
    assert_eq!(t.min_sticker_confidence, score(0.55));
    assert_eq!(t.min_ocr_confidence, score(0.65));
    assert_eq!(t.min_good_matches, 12);
}

#[test]
fn trusted_readings_get_their_number() {
    let t = ProcessingThresholds::default();
    let outcome = process_detection(5, &found(0.55, 12), &reading("82", 0.65), &no_debug(), &t);
    assert_eq!(outcome.sort_status, "assigned_by_ocr");
    assert_eq!(outcome.sort_number.as_ref().unwrap(), "82");
    let record = outcome.record;
    assert_eq!((record.image_id, record.status.as_str()), (5, "assigned_by_ocr"));
    assert_eq!(record.assignment.final_number.unwrap(), "82");
    assert_eq!(record.assignment.confidence, score(0.8));
    assert!(!record.assignment.needs_review && record.assignment.notes.is_none());
    let ocr = record.ocr_result.unwrap();
    assert_eq!((ocr.digits_only.as_str(), ocr.raw_text.as_str()), ("82", "No 82"));
    assert_eq!(ocr.preprocessing_variant, "opencv");
    assert!(ocr.is_high_confidence);
}

#[test]
fn doubtful_readings_are_left_for_review() {
    let t = ProcessingThresholds::default();
    for (detection, read) in [
        (found(0.55, 12), reading("82", 0.64)),
        (found(0.54, 12), reading("82", 0.65)),
        (found(0.55, 11), reading("82", 0.65)),
        (found(0.55, 12), reading("", 0.99)),
    ] {
        let outcome = process_detection(5, &detection, &read, &no_debug(), &t);
        assert_eq!(outcome.sort_status, "needs_review");
        assert!(outcome.sort_number.is_none());
        assert!(outcome.record.assignment.needs_review);
        assert!(!outcome.record.ocr_result.unwrap().is_high_confidence);
    }
    let outcome = process_detection(5, &found(0.5, 11), &reading("82", 0.6), &no_debug(), &t);
    assert_eq!(
        said(&outcome.record.assignment.notes.unwrap()),
        "low confidence OCR digits='82' ocr=0.60 sticker=0.50 good_matches=11"
    );
}

#[test]
fn images_without_sticker_or_digits_are_told_apart() {
    let t = ProcessingThresholds::default();
    let outcome = process_detection(5, &not_found(None), &reading("82", 0.9), &no_debug(), &t);
    assert_eq!(outcome.sort_status, "no_sticker_found");
    assert!(outcome.record.ocr_result.is_none());
    assert_eq!(said(&outcome.record.assignment.notes.unwrap()), "sticker not found");
    let outcome =
        process_detection(5, &not_found(Some("not enough image features")), &nothing_read(), &no_debug(), &t);
    assert_eq!(said(&outcome.record.assignment.notes.unwrap()), "not enough image features");
    let outcome = process_detection(5, &found(0.7, 20), &nothing_read(), &no_debug(), &t);
    assert_eq!(outcome.sort_status, "ocr_failed");
    assert_eq!(outcome.record.assignment.confidence, score(0.7));
    assert_eq!(
        said(&outcome.record.assignment.notes.unwrap()),
        "OCR returned no digit candidate"
    );
}

#[test]
fn intermediate_images_have_their_place() {
    let debug = DebugPaths::new(true, &path("/out"), 3, 5, &path("/in/a.b.jpg"));
    assert_eq!(
        debug.warped_sticker.unwrap().display_text(),
        "/out/_debug/event_3/5_a.warped_sticker.png"
    );
    let debug = DebugPaths::new(true, &path("/out"), 3, 5, &path("/in/a.jpg"));
    assert_eq!(
        debug.number_crop.unwrap().display_text(),
        "/out/_debug/event_3/5_a.number_crop.png"
    );
    assert_eq!(
        debug.thresholded_crop.unwrap().display_text(),
        "/out/_debug/event_3/5_a.thresholded_number.png"
    );
    assert!(DebugPaths::new(false, &path("/out"), 3, 5, &path("/in/a.jpg")).number_crop.is_none());
}

#[test]
fn images_go_through_all_steps() {
    let w = worker(false, true);
    let image = path("/in/a.jpg");
    let step = w.start();
    assert!(matches!(step, WorkStep::LookUp));
    let step = w.process(&image, step, WorkEvent::LookedUp { processed: false }).unwrap();
    assert!(matches!(step, WorkStep::Detect));
    let step = w.process(&image, step, WorkEvent::Detected { detection: found(0.9, 40) }).unwrap();
    assert!(matches!(step, WorkStep::Register { .. }));
    let identity = ImageIdentity { id: 5, already_processed: false };
    let step = w.process(&image, step, WorkEvent::Registered { identity }).unwrap();
    match &step {
        WorkStep::Read { image_id, debug, .. } => {
            assert_eq!(*image_id, 5);
            assert!(debug.number_crop.is_some());
        }
        other => panic!("{:?}", other),
    }
    let step = w.process(&image, step, WorkEvent::WasRead { reading: reading("82", 0.9) }).unwrap();
    let step = w.process(&image, step, WorkEvent::Saved).unwrap();
    match &step {
        WorkStep::Place { status, number, .. } => {
            assert_eq!((status.as_str(), number.as_deref()), ("assigned_by_ocr", Some("82")));
        }
        other => panic!("{:?}", other),
    }
    match w.process(&image, step, WorkEvent::Placed).unwrap() {
        WorkStep::Finish { result } => {
            assert_eq!(result.status, "assigned_by_ocr");
            assert!(!result.skipped && result.error.is_none());
        }
        other => panic!("{:?}", other),
    }
}

/// The status that work ended with, and its error.
fn ended(step: Option<WorkStep>) -> (String, Option<String>) {
    match step {
        Some(WorkStep::Finish { result }) => (result.status, result.error),
        other => panic!("{:?}", other),
    }
}

#[test]
fn processed_images_are_skipped_unless_asked_for() {
    let image = path("/in/a.jpg");
    let w = worker(false, false);
    let looked = w.process(&image, w.start(), WorkEvent::LookedUp { processed: true });
    assert_eq!(ended(looked), ("skipped".to_string(), None));
    let identity = ImageIdentity { id: 5, already_processed: true };
    let listed = |w: &Worker| {
        w.process(
            &image,
            WorkStep::Register { detection: found(0.9, 40) },
            WorkEvent::Registered { identity },
        )
    };
    assert_eq!(ended(listed(&w)), ("skipped".to_string(), None));
    let again = worker(true, false);
    assert!(matches!(again.start(), WorkStep::Detect));
    assert!(matches!(listed(&again), Some(WorkStep::Read { .. })));
}

#[test]
fn failures_end_the_work_or_are_recorded() {
    let image = path("/in/a.jpg");
    let w = worker(false, false);
    let failed = || WorkEvent::Failed { error: "locked".to_string() };
    let locked = ("failed".to_string(), Some("locked".to_string()));
    assert_eq!(ended(w.process(&image, WorkStep::LookUp, failed())), locked);
    assert_eq!(
        ended(w.process(&image, WorkStep::Register { detection: found(0.9, 40) }, failed())),
        locked
    );
    assert!(w.process(&image, WorkStep::Detect, failed()).is_none());
    assert!(w.process(&image, WorkStep::LookUp, WorkEvent::Placed).is_none());

    let step = w
        .process(&image, WorkStep::Detect, WorkEvent::NotDetected { error: "unreadable".to_string() })
        .unwrap();
    let identity = ImageIdentity { id: 5, already_processed: false };
    match w.process(&image, step, WorkEvent::Registered { identity }) {
        Some(WorkStep::Save { outcome }) => {
            assert_eq!(outcome.sort_status, "needs_review");
            assert_eq!(
                said(&outcome.record.assignment.notes.unwrap()),
                "processing failed: unreadable"
            );
        }
        other => panic!("{:?}", other),
    }
    let mut bare = found(0.9, 40);
    bare.has_warped_sticker = false;
    assert_eq!(
        ended(w.process(
            &image,
            WorkStep::Register { detection: bare },
            WorkEvent::Registered { identity }
        ))
        .1
        .unwrap(),
        "sticker detection was found but no warped sticker was produced"
    );
}

#[test]
fn results_are_summed_up() {
    let done = |status: &str| ImageRunResult {
        status: status.to_string(),
        skipped: false,
        error: None,
    };
    let results = vec![
        done("assigned_by_ocr"),
        done("no_sticker_found"),
        done("ocr_failed"),
        done("needs_review"),
        done("assigned_by_ocr"),
        failed_result("locked".to_string()),
        ImageRunResult { status: "skipped".to_string(), skipped: true, error: None },
    ];
    let s = summarize(9, &results);
    assert_eq!((s.discovered, s.processed, s.skipped, s.failed), (9, 5, 1, 1));
    assert_eq!(s.processed + s.skipped + s.failed, results.len());
    assert_eq!(
        (s.assigned_by_ocr, s.no_sticker_found, s.ocr_failed, s.needs_review),
        (2, 1, 1, 1)
    );
}
