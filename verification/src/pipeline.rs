//! The first stage of sorting an event: for each image, find the sticker, read
//! the number, record the outcome, and put the file where it belongs.

use crate::db::{
    AssignmentRecord, ImageIdentity, ImageProcessingRecord, OcrRecord, StickerMatchRecord,
};
use crate::note;
use crate::note::Note;
use crate::ocr_result::OcrResult;
use crate::paths;
use crate::paths::FilePath;
use crate::score::Score;
use crate::sorter;
use crate::sorter::SortMode;
use crate::sticker_matcher::StickerDetection;
use crate::text;
use vstd::prelude::*;

verus! {

/// What the first stage works on.
#[derive(Debug)]
pub struct FirstStageConfig {
    pub db_path: FilePath,
    pub event_id: i64,
    pub source_dir: FilePath,
    pub output_dir: FilePath,
    pub mode: SortMode,
    pub debug_mode: bool,
    pub reprocess: bool,
    pub thresholds: ProcessingThresholds,
}

/// From when on a number that was read is trusted.
#[derive(Clone, Copy, Debug, PartialEq, Eq, Structural)]
pub struct ProcessingThresholds {
    pub min_sticker_confidence: Score,
    pub min_ocr_confidence: Score,
    pub min_good_matches: usize,
}

impl Default for ProcessingThresholds {
    /// A sticker confidence of 0.55, a reading confidence of 0.65, 12 matches.
    fn default() -> (thresholds: Self)
        ensures
            thresholds.min_sticker_confidence.bits == 0x3f0c_cccd,
            thresholds.min_ocr_confidence.bits == 0x3f26_6666,
            thresholds.min_good_matches == 12,
    {
        ProcessingThresholds {
            min_sticker_confidence: Score { bits: 0x3f0c_cccd },
            min_ocr_confidence: Score { bits: 0x3f26_6666 },
            min_good_matches: 12,
        }
    }
}

/// Counts over a run of the first stage.
#[derive(Clone, Copy, Debug, PartialEq, Eq, Structural)]
pub struct FirstStageSummary {
    pub discovered: usize,
    pub processed: usize,
    pub skipped: usize,
    pub assigned_by_ocr: usize,
    pub needs_review: usize,
    pub no_sticker_found: usize,
    pub ocr_failed: usize,
    pub failed: usize,
}

/// What became of an image.
#[derive(Debug)]
pub struct ImageRunResult {
    pub status: String,
    pub skipped: bool,
    pub error: Option<String>,
}

/// Where intermediate images are written, where they are.
#[derive(Debug)]
pub struct DebugPaths {
    pub warped_sticker: Option<FilePath>,
    pub number_crop: Option<FilePath>,
    pub thresholded_crop: Option<FilePath>,
}

/// The folder that the intermediate images of an event are written to:
/// `_debug/event_<event>` below the output directory.
pub open spec fn debug_folder(output_dir: Seq<u8>, event_id: i64) -> Seq<u8> {
    paths::joined(
        paths::joined(output_dir, vstd::utf8::encode_utf8("_debug"@)),
        vstd::utf8::encode_utf8("event_"@ + text::signed_decimal(event_id as int)),
    )
}

/// The name of an intermediate image: `<image>_<stem>` with an extension in the place of
/// the one that this may have.
pub open spec fn debug_name(image_id: i64, image_path: Seq<u8>, extension: Seq<char>) -> Seq<u8> {
    let stem = match paths::file_stem_text(image_path) {
        Some(s) => s,
        None => "image"@,
    };
    paths::stem(
        vstd::utf8::encode_utf8(text::signed_decimal(image_id as int) + "_"@ + stem),
    ).push(46u8) + paths::ascii(extension)
}

fn debug_path(folder: &FilePath, name: &str, extension: &str) -> (path: FilePath)
    requires
        paths::is_ascii_text(extension@),
    ensures
        path@ == paths::joined(
            folder@,
            paths::stem(vstd::utf8::encode_utf8(name@)).push(46u8) + paths::ascii(extension@),
        ),
{
    let mut file = paths::stem_of(name.as_bytes());
    file.push(46);
    let tail = paths::ascii_bytes(extension);
    paths::append_bytes(&mut file, tail.as_slice());
    folder.join(file.as_slice())
}

impl DebugPaths {
    /// The paths are those for an image, or none.
    pub open spec fn are_for(
        self,
        enabled: bool,
        output_dir: Seq<u8>,
        event_id: i64,
        image_id: i64,
        image_path: Seq<u8>,
    ) -> bool {
        if enabled {
            let folder = debug_folder(output_dir, event_id);
            &&& paths::optional_view(self.warped_sticker) == Some(
                paths::joined(folder, debug_name(image_id, image_path, "warped_sticker.png"@)),
            )
            &&& paths::optional_view(self.number_crop) == Some(
                paths::joined(folder, debug_name(image_id, image_path, "number_crop.png"@)),
            )
            &&& paths::optional_view(self.thresholded_crop) == Some(
                paths::joined(folder, debug_name(image_id, image_path, "thresholded_number.png"@)),
            )
        } else {
            self.warped_sticker is None && self.number_crop is None && self.thresholded_crop is None
        }
    }

    /// Where the intermediate images of an image are written, if they are.
    pub fn new(
        enabled: bool,
        output_dir: &FilePath,
        event_id: i64,
        image_id: i64,
        image_path: &FilePath,
    ) -> (debug: DebugPaths)
        ensures
            debug.are_for(enabled, output_dir@, event_id, image_id, image_path@),
    {
        if !enabled {
            return DebugPaths { warped_sticker: None, number_crop: None, thresholded_crop: None };
        }
        proof {
            reveal_strlit("warped_sticker.png");
            reveal_strlit("number_crop.png");
            reveal_strlit("thresholded_number.png");
        }
        let stem = match image_path.file_stem_text() {
            Some(s) => s,
            None => text::owned("image"),
        };
        let mut event = text::owned("event_");
        text::push_signed(&mut event, event_id);
        let mut file = String::new();
        text::push_signed(&mut file, image_id);
        assert(file@ =~= text::signed_decimal(image_id as int));
        text::push_text(&mut file, "_");
        text::push_text(&mut file, stem.as_str());
        let folder = output_dir.join_text("_debug").join_text(event.as_str());
        DebugPaths {
            warped_sticker: Some(debug_path(&folder, file.as_str(), "warped_sticker.png")),
            number_crop: Some(debug_path(&folder, file.as_str(), "number_crop.png")),
            thresholded_crop: Some(debug_path(&folder, file.as_str(), "thresholded_number.png")),
        }
    }
}

/// The record of how the sticker was found.
pub open spec fn is_sticker_record(
    record: StickerMatchRecord,
    detection: StickerDetection,
    warped: Option<Seq<u8>>,
    crop: Option<Seq<u8>>,
) -> bool {
    &&& record.found == detection.found
    &&& record.match_confidence == detection.match_confidence
    &&& record.good_match_count == detection.good_match_count as i32
    &&& record.homography_valid == detection.homography_valid
    &&& paths::optional_view(record.warped_sticker_path) == warped
    &&& paths::optional_view(record.number_crop_path) == crop
}

/// Records how the sticker was found.
pub fn sticker_record(
    detection: &StickerDetection,
    warped_sticker_path: Option<FilePath>,
    number_crop_path: Option<FilePath>,
) -> (record: StickerMatchRecord)
    ensures
        is_sticker_record(
            record,
            *detection,
            paths::optional_view(warped_sticker_path),
            paths::optional_view(number_crop_path),
        ),
{
    StickerMatchRecord {
        found: detection.found,
        match_confidence: detection.match_confidence,
        good_match_count: detection.good_match_count as i32,
        homography_valid: detection.homography_valid,
        warped_sticker_path,
        number_crop_path,
    }
}

/// What was read in the number region: the reading, if there is one, how the
/// region was prepared for it, and the confidence that sticker and reading give
/// together.
#[derive(Debug)]
pub struct Reading {
    pub ocr: Option<OcrResult>,
    pub variant: String,
    pub combined_confidence: Score,
}

/// A reading that is trusted: there are digits, and every threshold is met.
pub open spec fn is_trusted(
    ocr: OcrResult,
    detection: StickerDetection,
    thresholds: ProcessingThresholds,
) -> bool {
    &&& ocr.text@.len() > 0
    &&& ocr.confidence.ge(thresholds.min_ocr_confidence)
    &&& detection.match_confidence.ge(thresholds.min_sticker_confidence)
    &&& detection.good_match_count >= thresholds.min_good_matches
}

/// The status that an image gets.
pub open spec fn status_of(
    detection: StickerDetection,
    ocr: Option<OcrResult>,
    thresholds: ProcessingThresholds,
) -> Seq<char> {
    if !detection.found {
        "no_sticker_found"@
    } else {
        match ocr {
            Some(read) => if is_trusted(read, detection, thresholds) {
                "assigned_by_ocr"@
            } else {
                "needs_review"@
            },
            None => "ocr_failed"@,
        }
    }
}

/// The remark on an image that got no number.
pub open spec fn remark(detection: StickerDetection, ocr: Option<OcrResult>) -> Seq<note::Saying> {
    if !detection.found {
        seq![
            note::words(
                match detection.note {
                    Some(n) => n@,
                    None => "sticker not found"@,
                },
            ),
        ]
    } else {
        match ocr {
            Some(read) => seq![
                note::words("low confidence OCR digits='"@),
                note::words(read.text@),
                note::words("' ocr="@),
                note::fixed(read.confidence, 2),
                note::words(" sticker="@),
                note::fixed(detection.match_confidence, 2),
                note::words(" good_matches="@),
                note::words(text::decimal(detection.good_match_count as nat)),
            ],
            None => seq![note::words("OCR returned no digit candidate"@)],
        }
    }
}

/// The outcome for an image: what is recorded, and the status and the number
/// that its file is sorted by.
#[derive(Debug)]
pub struct ProcessedImage {
    pub record: ImageProcessingRecord,
    pub sort_status: String,
    pub sort_number: Option<String>,
}

/// The record of a reading.
pub open spec fn is_ocr_record(
    record: OcrRecord,
    ocr: OcrResult,
    variant: Seq<char>,
    trusted: bool,
) -> bool {
    &&& record.raw_text@ == ocr.raw()
    &&& record.digits_only@ == ocr.text@
    &&& record.confidence == ocr.confidence
    &&& record.preprocessing_variant@ == variant
    &&& record.is_high_confidence == trusted
}

/// The outcome is the one for this detection and this reading.
pub open spec fn is_outcome(
    outcome: ProcessedImage,
    image_id: i64,
    detection: StickerDetection,
    reading: Reading,
    debug: DebugPaths,
    thresholds: ProcessingThresholds,
) -> bool {
    let record = outcome.record;
    let assignment = record.assignment;
    let status = status_of(detection, reading.ocr, thresholds);
    let trusted = detection.found && (reading.ocr matches Some(read) && is_trusted(
        read,
        detection,
        thresholds,
    ));
    &&& record.image_id == image_id
    &&& record.status@ == status
    &&& outcome.sort_status@ == status
    &&& assignment.assignment_method@ == status
    &&& assignment.needs_review == !trusted
    &&& text::optional_text(assignment.final_number) == (if trusted {
        Some(reading.ocr->0.text@)
    } else {
        None
    })
    &&& text::optional_text(outcome.sort_number) == text::optional_text(assignment.final_number)
    &&& assignment.confidence == (if !detection.found {
        Score { bits: 0 }
    } else if reading.ocr is Some {
        reading.combined_confidence
    } else {
        detection.match_confidence
    })
    &&& if trusted {
        assignment.notes is None
    } else {
        assignment.notes matches Some(n) && n@ == remark(detection, reading.ocr)
    }
    &&& is_sticker_record(
        record.sticker_match,
        detection,
        if detection.found {
            paths::optional_view(debug.warped_sticker)
        } else {
            None
        },
        if detection.found {
            paths::optional_view(debug.number_crop)
        } else {
            None
        },
    )
    &&& if detection.found && reading.ocr is Some {
        record.ocr_result matches Some(r) && is_ocr_record(
            r,
            reading.ocr->0,
            reading.variant@,
            trusted,
        )
    } else {
        record.ocr_result is None
    }
}

fn no_sticker(image_id: i64, detection: &StickerDetection) -> (outcome: ProcessedImage)
    requires
        !detection.found,
    ensures
        forall|reading: Reading, debug: DebugPaths, thresholds: ProcessingThresholds|
            is_outcome(outcome, image_id, *detection, reading, debug, thresholds),
{
    let why = match &detection.note {
        Some(n) => Note::of_text(n.as_str()),
        None => Note::of_text("sticker not found"),
    };
    ProcessedImage {
        record: ImageProcessingRecord {
            image_id,
            status: text::owned("no_sticker_found"),
            sticker_match: sticker_record(detection, None, None),
            ocr_result: None,
            assignment: AssignmentRecord {
                final_number: None,
                assignment_method: text::owned("no_sticker_found"),
                confidence: Score { bits: 0 },
                needs_review: true,
                notes: Some(why),
            },
        },
        sort_status: text::owned("no_sticker_found"),
        sort_number: None,
    }
}

fn low_confidence_note(ocr: &OcrResult, detection: &StickerDetection) -> (note: Note)
    requires
        detection.found,
    ensures
        note@ == remark(*detection, Some(*ocr)),
{
    let mut note = Note::new();
    let count = text::decimal_text(detection.good_match_count as u64);
    note.say("low confidence OCR digits='");
    note.say(ocr.text.as_str());
    note.say("' ocr=");
    note.write(ocr.confidence, 2);
    note.say(" sticker=");
    note.write(detection.match_confidence, 2);
    note.say(" good_matches=");
    note.say(count.as_str());
    assert(note@ =~= remark(*detection, Some(*ocr)));
    note
}

/// Turns a detection and what was read into the outcome for an image. Without a
/// sticker nothing is read, and the reading is not looked at.
pub fn process_detection(
    image_id: i64,
    detection: &StickerDetection,
    reading: &Reading,
    debug: &DebugPaths,
    thresholds: &ProcessingThresholds,
) -> (outcome: ProcessedImage)
    ensures
        is_outcome(outcome, image_id, *detection, *reading, *debug, *thresholds),
{
    if !detection.found {
        return no_sticker(image_id, detection);
    }
    let sticker_match = sticker_record(
        detection,
        paths::copy_optional(&debug.warped_sticker),
        paths::copy_optional(&debug.number_crop),
    );
    match &reading.ocr {
        None => {
            ProcessedImage {
                record: ImageProcessingRecord {
                    image_id,
                    status: text::owned("ocr_failed"),
                    sticker_match,
                    ocr_result: None,
                    assignment: AssignmentRecord {
                        final_number: None,
                        assignment_method: text::owned("ocr_failed"),
                        confidence: detection.match_confidence,
                        needs_review: true,
                        notes: Some(Note::of_text("OCR returned no digit candidate")),
                    },
                },
                sort_status: text::owned("ocr_failed"),
                sort_number: None,
            }
        },
        Some(ocr) => {
            let trusted = !ocr.text.as_str().is_empty() && ocr.confidence.is_at_least(
                thresholds.min_ocr_confidence,
            ) && detection.match_confidence.is_at_least(thresholds.min_sticker_confidence)
                && detection.good_match_count >= thresholds.min_good_matches;
            let ocr_record = OcrRecord {
                raw_text: ocr.raw_text(),
                digits_only: ocr.text.clone(),
                confidence: ocr.confidence,
                preprocessing_variant: reading.variant.clone(),
                is_high_confidence: trusted,
            };
            let status = if trusted {
                text::owned("assigned_by_ocr")
            } else {
                text::owned("needs_review")
            };
            let number = if trusted {
                Some(ocr.text.clone())
            } else {
                None
            };
            let notes = if trusted {
                None
            } else {
                Some(low_confidence_note(ocr, detection))
            };
            ProcessedImage {
                record: ImageProcessingRecord {
                    image_id,
                    status: status.clone(),
                    sticker_match,
                    ocr_result: Some(ocr_record),
                    assignment: AssignmentRecord {
                        final_number: text::copy_optional(&number),
                        assignment_method: status.clone(),
                        confidence: reading.combined_confidence,
                        needs_review: !trusted,
                        notes,
                    },
                },
                sort_status: status,
                sort_number: number,
            }
        },
    }
}

/// The outcome for an image that could not be searched: it is left for a person
/// to look at, with the reason.
pub open spec fn is_failure_outcome(outcome: ProcessedImage, image_id: i64, error: Seq<char>) -> bool {
    let record = outcome.record;
    &&& record.image_id == image_id
    &&& record.status@ == "needs_review"@
    &&& outcome.sort_status@ == "needs_review"@
    &&& outcome.sort_number is None
    &&& !record.sticker_match.found
    &&& record.sticker_match.match_confidence == (Score { bits: 0 })
    &&& record.sticker_match.good_match_count == 0
    &&& !record.sticker_match.homography_valid
    &&& record.sticker_match.warped_sticker_path is None
    &&& record.sticker_match.number_crop_path is None
    &&& record.ocr_result is None
    &&& record.assignment.final_number is None
    &&& record.assignment.assignment_method@ == "needs_review"@
    &&& record.assignment.confidence == (Score { bits: 0 })
    &&& record.assignment.needs_review
    &&& record.assignment.notes matches Some(n) && n@ == seq![
        note::words("processing failed: "@),
        note::words(error),
    ]
}

/// The outcome for an image that could not be searched.
pub fn failure_outcome(image_id: i64, error: &str) -> (outcome: ProcessedImage)
    ensures
        is_failure_outcome(outcome, image_id, error@),
{
    let mut why = Note::new();
    why.say("processing failed: ");
    why.say(error);
    assert(why@ =~= seq![note::words("processing failed: "@), note::words(error@)]);
    ProcessedImage {
        record: ImageProcessingRecord {
            image_id,
            status: text::owned("needs_review"),
            sticker_match: StickerMatchRecord {
                found: false,
                match_confidence: Score { bits: 0 },
                good_match_count: 0,
                homography_valid: false,
                warped_sticker_path: None,
                number_crop_path: None,
            },
            ocr_result: None,
            assignment: AssignmentRecord {
                final_number: None,
                assignment_method: text::owned("needs_review"),
                confidence: Score { bits: 0 },
                needs_review: true,
                notes: Some(why),
            },
        },
        sort_status: text::owned("needs_review"),
        sort_number: None,
    }
}

/// What to do next with an image.
#[derive(Debug)]
pub enum WorkStep {
    /// Look up whether it has been processed.
    LookUp,
    /// Search for the sticker.
    Detect,
    /// List the image with the size that was found.
    Register { detection: StickerDetection },
    /// List the image, whose search failed.
    RegisterFailed { error: String },
    /// Read the number on the sticker.
    Read { image_id: i64, detection: StickerDetection, debug: DebugPaths },
    /// Record the outcome.
    Save { outcome: ProcessedImage },
    /// Put the file where its status and number belong.
    Place { status: String, number: Option<String>, result: ImageRunResult },
    /// Nothing is left to do.
    Finish { result: ImageRunResult },
}

/// What came of a step.
#[derive(Debug)]
pub enum WorkEvent {
    LookedUp { processed: bool },
    Detected { detection: StickerDetection },
    NotDetected { error: String },
    Registered { identity: ImageIdentity },
    WasRead { reading: Reading },
    Saved,
    Placed,
    Failed { error: String },
}

/// A result of work that was done.
pub open spec fn is_result(result: ImageRunResult, status: Seq<char>) -> bool {
    result.status@ == status && !result.skipped && result.error is None
}

/// The result for an image that was left as it is.
pub open spec fn is_skipped(result: ImageRunResult) -> bool {
    result.status@ == "skipped"@ && result.skipped && result.error is None
}

/// The result for an image that something went wrong with.
pub open spec fn is_failed(result: ImageRunResult, error: Seq<char>) -> bool {
    result.status@ == "failed"@ && !result.skipped && text::optional_text(result.error) == Some(
        error,
    )
}

/// The result for an image that something went wrong with.
pub fn failed_result(error: String) -> (result: ImageRunResult)
    ensures
        is_failed(result, error@),
{
    ImageRunResult { status: text::owned("failed"), skipped: false, error: Some(error) }
}

fn skipped_result() -> (result: ImageRunResult)
    ensures
        is_skipped(result),
{
    ImageRunResult { status: text::owned("skipped"), skipped: true, error: None }
}

/// What all images of a run have in common.
#[derive(Debug)]
pub struct Worker {
    pub event_id: i64,
    pub output_dir: FilePath,
    pub debug_mode: bool,
    pub reprocess: bool,
    pub thresholds: ProcessingThresholds,
}

/// The step that follows when an image has been listed after its search.
pub open spec fn follows_registration(
    worker: Worker,
    image_path: Seq<u8>,
    detection: StickerDetection,
    identity: ImageIdentity,
    next: WorkStep,
) -> bool {
    if identity.already_processed && !worker.reprocess {
        next matches WorkStep::Finish { result } && is_skipped(result)
    } else if !detection.found {
        next matches WorkStep::Save { outcome } && forall|reading: Reading, debug: DebugPaths|
            is_outcome(outcome, identity.id, detection, reading, debug, worker.thresholds)
    } else if !detection.has_warped_sticker {
        next matches WorkStep::Finish { result } && is_failed(
            result,
            "sticker detection was found but no warped sticker was produced"@,
        )
    } else {
        next matches WorkStep::Read { image_id, detection: d, debug } && image_id == identity.id
            && d == detection && debug.are_for(
            worker.debug_mode,
            worker.output_dir@,
            worker.event_id,
            identity.id,
            image_path,
        )
    }
}

/// The step that follows a step and what came of it. Where the two do not belong
/// together, none does.
pub open spec fn is_work_step(
    worker: Worker,
    image_path: Seq<u8>,
    step: WorkStep,
    event: WorkEvent,
    next: Option<WorkStep>,
) -> bool {
    if let WorkEvent::Failed { error } = event {
        if step is Detect || step is Finish {
            next is None
        } else {
            next matches Some(WorkStep::Finish { result }) && is_failed(result, error@)
        }
    } else {
        match (step, event) {
            (WorkStep::LookUp, WorkEvent::LookedUp { processed }) => if processed {
                next matches Some(WorkStep::Finish { result }) && is_skipped(result)
            } else {
                next matches Some(WorkStep::Detect)
            },
            (WorkStep::Detect, WorkEvent::Detected { detection }) => next == Some(
                WorkStep::Register { detection },
            ),
            (WorkStep::Detect, WorkEvent::NotDetected { error }) => next == Some(
                WorkStep::RegisterFailed { error },
            ),
            (
                WorkStep::Register { detection },
                WorkEvent::Registered { identity },
            ) => next matches Some(n) && follows_registration(
                worker,
                image_path,
                detection,
                identity,
                n,
            ),
            (
                WorkStep::RegisterFailed { error },
                WorkEvent::Registered { identity },
            ) => next matches Some(WorkStep::Save { outcome }) && is_failure_outcome(
                outcome,
                identity.id,
                error@,
            ),
            (
                WorkStep::Read { image_id, detection, debug },
                WorkEvent::WasRead { reading },
            ) => next matches Some(WorkStep::Save { outcome }) && is_outcome(
                outcome,
                image_id,
                detection,
                reading,
                debug,
                worker.thresholds,
            ),
            (WorkStep::Save { outcome }, WorkEvent::Saved) => next matches Some(
                WorkStep::Place { status, number, result },
            ) && status == outcome.sort_status && number == outcome.sort_number && is_result(
                result,
                outcome.record.status@,
            ),
            (WorkStep::Place { status, number, result }, WorkEvent::Placed) => next == Some(
                WorkStep::Finish { result },
            ),
            _ => next is None,
        }
    }
}

impl Worker {
    /// The first step: unless everything is processed again, what has been
    /// processed is looked up.
    pub fn start(&self) -> (step: WorkStep)
        ensures
            self.reprocess ==> step is Detect,
            !self.reprocess ==> step is LookUp,
    {
        if self.reprocess {
            WorkStep::Detect
        } else {
            WorkStep::LookUp
        }
    }

    /// The step that follows a step and what came of it.
    pub fn process(&self, image_path: &FilePath, step: WorkStep, event: WorkEvent) -> (next: Option<
        WorkStep,
    >)
        ensures
            is_work_step(*self, image_path@, step, event, next),
    {
        match (step, event) {
            (WorkStep::Detect, WorkEvent::Failed { .. }) => None,
            (WorkStep::Finish { .. }, WorkEvent::Failed { .. }) => None,
            (_, WorkEvent::Failed { error }) => Some(
                WorkStep::Finish { result: failed_result(error) },
            ),
            (WorkStep::LookUp, WorkEvent::LookedUp { processed }) => if processed {
                Some(WorkStep::Finish { result: skipped_result() })
            } else {
                Some(WorkStep::Detect)
            },
            (WorkStep::Detect, WorkEvent::Detected { detection }) => Some(
                WorkStep::Register { detection },
            ),
            (WorkStep::Detect, WorkEvent::NotDetected { error }) => Some(
                WorkStep::RegisterFailed { error },
            ),
            (WorkStep::Register { detection }, WorkEvent::Registered { identity }) => Some(
                self.registered(image_path, detection, identity),
            ),
            (WorkStep::RegisterFailed { error }, WorkEvent::Registered { identity }) => Some(
                WorkStep::Save { outcome: failure_outcome(identity.id, error.as_str()) },
            ),
            (WorkStep::Read { image_id, detection, debug }, WorkEvent::WasRead { reading }) => Some(
                WorkStep::Save {
                    outcome: process_detection(
                        image_id,
                        &detection,
                        &reading,
                        &debug,
                        &self.thresholds,
                    ),
                },
            ),
            (WorkStep::Save { outcome }, WorkEvent::Saved) => Some(
                WorkStep::Place {
                    status: outcome.sort_status,
                    number: outcome.sort_number,
                    result: ImageRunResult {
                        status: outcome.record.status,
                        skipped: false,
                        error: None,
                    },
                },
            ),
            (WorkStep::Place { status, number, result }, WorkEvent::Placed) => Some(
                WorkStep::Finish { result },
            ),
            _ => None,
        }
    }

    fn registered(
        &self,
        image_path: &FilePath,
        detection: StickerDetection,
        identity: ImageIdentity,
    ) -> (next: WorkStep)
        ensures
            follows_registration(*self, image_path@, detection, identity, next),
    {
        if identity.already_processed && !self.reprocess {
            return WorkStep::Finish { result: skipped_result() };
        }
        if !detection.found {
            return WorkStep::Save { outcome: no_sticker(identity.id, &detection) };
        }
        if !detection.has_warped_sticker {
            return WorkStep::Finish {
                result: failed_result(
                    text::owned("sticker detection was found but no warped sticker was produced"),
                ),
            };
        }
        let debug = DebugPaths::new(
            self.debug_mode,
            &self.output_dir,
            self.event_id,
            identity.id,
            image_path,
        );
        WorkStep::Read { image_id: identity.id, detection, debug }
    }
}

/// Results with a status that count as processed.
pub open spec fn counted(results: Seq<ImageRunResult>, status: Seq<char>) -> nat {
    results.filter(
        |r: ImageRunResult| !r.skipped && r.error is None && r.status@ == status,
    ).len()
}

/// How many results are of images that were processed.
pub open spec fn processed_count(results: Seq<ImageRunResult>) -> nat {
    results.filter(|r: ImageRunResult| !r.skipped && r.error is None).len()
}

/// How many results are of images that were left as they are.
pub open spec fn skipped_count(results: Seq<ImageRunResult>) -> nat {
    results.filter(|r: ImageRunResult| r.skipped).len()
}

/// How many results are of images that something went wrong with.
pub open spec fn failed_count(results: Seq<ImageRunResult>) -> nat {
    results.filter(|r: ImageRunResult| !r.skipped && r.error is Some).len()
}

/// Every image is counted once: as skipped, as failed or as processed. Of the
/// processed ones no more than all are counted by status.
pub proof fn results_are_counted_once(results: Seq<ImageRunResult>)
    ensures
        processed_count(results) + skipped_count(results) + failed_count(results) == results.len(),
        counted(results, "assigned_by_ocr"@) + counted(results, "no_sticker_found"@) + counted(
            results,
            "ocr_failed"@,
        ) + counted(results, "needs_review"@) <= processed_count(results),
    decreases results.len(),
{
    reveal(Seq::filter);
    reveal_strlit("assigned_by_ocr");
    reveal_strlit("no_sticker_found");
    reveal_strlit("ocr_failed");
    reveal_strlit("needs_review");
    assert("assigned_by_ocr"@.len() == 15 && "no_sticker_found"@.len() == 16 && "ocr_failed"@.len()
        == 10 && "needs_review"@.len() == 12);
    if results.len() > 0 {
        results_are_counted_once(results.drop_last());
    }
}

/// Counts what became of the images.
pub fn summarize(discovered: usize, results: &Vec<ImageRunResult>) -> (summary: FirstStageSummary)
    ensures
        summary.discovered == discovered,
        summary.processed == processed_count(results@),
        summary.skipped == skipped_count(results@),
        summary.failed == failed_count(results@),
        summary.assigned_by_ocr == counted(results@, "assigned_by_ocr"@),
        summary.no_sticker_found == counted(results@, "no_sticker_found"@),
        summary.ocr_failed == counted(results@, "ocr_failed"@),
        summary.needs_review == counted(results@, "needs_review"@),
{
    let mut summary = FirstStageSummary {
        discovered,
        processed: 0,
        skipped: 0,
        assigned_by_ocr: 0,
        needs_review: 0,
        no_sticker_found: 0,
        ocr_failed: 0,
        failed: 0,
    };
    let mut i: usize = 0;
    proof {
        reveal(Seq::filter);
        assert(results@.take(0) =~= Seq::<ImageRunResult>::empty());
    }
    while i < results.len()
        invariant
            i <= results@.len(),
            summary.discovered == discovered,
            summary.processed == processed_count(results@.take(i as int)),
            summary.skipped == skipped_count(results@.take(i as int)),
            summary.failed == failed_count(results@.take(i as int)),
            summary.assigned_by_ocr == counted(results@.take(i as int), "assigned_by_ocr"@),
            summary.no_sticker_found == counted(results@.take(i as int), "no_sticker_found"@),
            summary.ocr_failed == counted(results@.take(i as int), "ocr_failed"@),
            summary.needs_review == counted(results@.take(i as int), "needs_review"@),
        decreases results@.len() - i,
    {
        proof {
            reveal(Seq::filter);
            results_are_counted_once(results@.take(i as int));
            assert(results@.take(i + 1).drop_last() =~= results@.take(i as int));
            assert(results@.take(i + 1).last() == results@[i as int]);
        }
        let result = &results[i];
        proof {
            reveal_strlit("assigned_by_ocr");
            reveal_strlit("no_sticker_found");
            reveal_strlit("ocr_failed");
            reveal_strlit("needs_review");
            assert("assigned_by_ocr"@.len() == 15 && "no_sticker_found"@.len() == 16
                && "ocr_failed"@.len() == 10 && "needs_review"@.len() == 12);
        }
        let status = result.status.as_str();
        if result.skipped {
            summary.skipped += 1;
        } else if result.error.is_some() {
            summary.failed += 1;
        } else {
            summary.processed += 1;
            if text::same_text(status, "assigned_by_ocr") {
                summary.assigned_by_ocr += 1;
            } else if text::same_text(status, "no_sticker_found") {
                summary.no_sticker_found += 1;
            } else if text::same_text(status, "ocr_failed") {
                summary.ocr_failed += 1;
            } else if text::same_text(status, "needs_review") {
                summary.needs_review += 1;
            }
        }
        i += 1;
    }
    assert(results@.take(i as int) =~= results@);
    summary
}

/// Only what is trusted is sorted by its number. A file goes into the folder of
/// a number just when its reading is trusted, under the number that was read;
/// all others go to folders that are marked, and are recorded as needing a look.
pub proof fn only_trusted_readings_are_sorted(
    outcome: ProcessedImage,
    image_id: i64,
    detection: StickerDetection,
    reading: Reading,
    debug: DebugPaths,
    thresholds: ProcessingThresholds,
)
    requires
        is_outcome(outcome, image_id, detection, reading, debug, thresholds),
    ensures
        ({
            let folder = sorter::folder_name(
                outcome.sort_status@,
                text::optional_text(outcome.sort_number),
            );
            let trusted = detection.found && (reading.ocr matches Some(read) && is_trusted(
                read,
                detection,
                thresholds,
            ));
            &&& trusted ==> folder == reading.ocr->0.text@ && !outcome.record.assignment.needs_review
            &&& !trusted ==> folder.len() > 0 && folder[0] == '_'
                && outcome.record.assignment.needs_review
                && outcome.record.assignment.final_number is None
            &&& !detection.found ==> folder == "_no_sticker"@
        }),
{
    reveal_strlit("_ambiguous");
    reveal_strlit("_no_sticker");
    reveal_strlit("_review");
    reveal_strlit("ambiguous");
    reveal_strlit("no_sticker_found");
    reveal_strlit("assigned_by_ocr");
    reveal_strlit("needs_review");
    reveal_strlit("ocr_failed");
    assert("needs_review"@.len() == 12 && "ocr_failed"@.len() == 10 && "no_sticker_found"@.len()
        == 16);
    assert("ambiguous"@.len() == 9);
    sorter::unsorted_files_go_to_marked_folders(
        outcome.sort_status@,
        text::optional_text(outcome.sort_number),
    );
}

/// A file is placed only after its outcome has been recorded, and by the status
/// that was recorded.
pub proof fn placed_only_when_recorded(
    worker: Worker,
    image_path: Seq<u8>,
    step: WorkStep,
    event: WorkEvent,
    next: Option<WorkStep>,
)
    requires
        is_work_step(worker, image_path, step, event, next),
        next matches Some(WorkStep::Place { .. }),
    ensures
        event is Saved,
        step matches WorkStep::Save { outcome } && next->0->Place_status == outcome.sort_status
            && next->0->Place_number == outcome.sort_number,
{
}

/// An image that has been processed is left alone, unless everything is to be
/// processed again.
pub proof fn processed_images_are_left_alone(
    worker: Worker,
    image_path: Seq<u8>,
    step: WorkStep,
    event: WorkEvent,
    next: Option<WorkStep>,
)
    requires
        is_work_step(worker, image_path, step, event, next),
        !worker.reprocess,
        (step is LookUp && (event matches WorkEvent::LookedUp { processed } && processed)) || (
        step is Register && (event matches WorkEvent::Registered { identity }
            && identity.already_processed)),
    ensures
        next matches Some(WorkStep::Finish { result }) && is_skipped(result),
{
}

proof fn lemma_statuses_differ()
    ensures
        "assigned_by_ocr"@.len() == 15,
        "needs_review"@.len() == 12,
        "ocr_failed"@.len() == 10,
        "no_sticker_found"@.len() == 16,
{
    reveal_strlit("assigned_by_ocr");
    reveal_strlit("needs_review");
    reveal_strlit("ocr_failed");
    reveal_strlit("no_sticker_found");
}

/// An image is assigned just where the sticker is found, digits were read, and the
/// confidence of the reading, that of the sticker and the number of matches each reach
/// their threshold. Then it has the digits as its number, and needs no review; otherwise it
/// has none, and needs one. Its file is sorted by the same status and number.
pub proof fn assigned_just_where_all_thresholds_are_met(
    outcome: ProcessedImage,
    image_id: i64,
    detection: StickerDetection,
    reading: Reading,
    debug: DebugPaths,
    thresholds: ProcessingThresholds,
)
    requires
        is_outcome(outcome, image_id, detection, reading, debug, thresholds),
    ensures
        ({
            let met = detection.found && reading.ocr is Some && {
                let read = reading.ocr->0;
                &&& read.text@.len() > 0
                &&& !read.confidence.nan()
                &&& !thresholds.min_ocr_confidence.nan()
                &&& read.confidence.value() >= thresholds.min_ocr_confidence.value()
                &&& !detection.match_confidence.nan()
                &&& !thresholds.min_sticker_confidence.nan()
                &&& detection.match_confidence.value() >= thresholds.min_sticker_confidence.value()
                &&& detection.good_match_count >= thresholds.min_good_matches
            };
            let record = outcome.record;
            &&& record.status@ == "assigned_by_ocr"@ <==> met
            &&& outcome.sort_status@ == "assigned_by_ocr"@ <==> met
            &&& record.assignment.assignment_method@ == "assigned_by_ocr"@ <==> met
            &&& record.assignment.needs_review <==> !met
            &&& met ==> text::optional_text(record.assignment.final_number) == Some(
                reading.ocr->0.text@,
            ) && text::optional_text(outcome.sort_number) == Some(reading.ocr->0.text@)
            &&& !met ==> record.assignment.final_number is None && outcome.sort_number is None
            &&& record.ocr_result matches Some(r) ==> (r.is_high_confidence <==> met)
            &&& record.image_id == image_id
        }),
{
    lemma_statuses_differ();
}

/// What is said of an image that got no number tells what was missing: no sticker, nothing
/// read on it, or a reading that is not trusted. What was read is recorded in each case.
pub proof fn statuses_tell_what_was_missing(
    outcome: ProcessedImage,
    image_id: i64,
    detection: StickerDetection,
    reading: Reading,
    debug: DebugPaths,
    thresholds: ProcessingThresholds,
)
    requires
        is_outcome(outcome, image_id, detection, reading, debug, thresholds),
    ensures
        outcome.record.status@ == "no_sticker_found"@ <==> !detection.found,
        outcome.record.status@ == "ocr_failed"@ <==> detection.found && reading.ocr is None,
        outcome.record.status@ == "needs_review"@ <==> detection.found && reading.ocr is Some
            && outcome.record.assignment.needs_review,
        outcome.sort_status@ == outcome.record.status@,
        outcome.record.ocr_result is Some <==> detection.found && reading.ocr is Some,
        outcome.record.ocr_result matches Some(r) ==> r.digits_only@ == reading.ocr->0.text@
            && r.confidence == reading.ocr->0.confidence,
        outcome.record.sticker_match.found == detection.found,
        outcome.record.sticker_match.match_confidence == detection.match_confidence,
        !detection.found ==> outcome.record.assignment.confidence.bits == 0,
        detection.found && reading.ocr is Some ==> outcome.record.assignment.confidence
            == reading.combined_confidence,
        detection.found && reading.ocr is None ==> outcome.record.assignment.confidence
            == detection.match_confidence,
{
    lemma_statuses_differ();
}

/// An image is looked up, searched, listed, read, recorded and placed, one after the other.
/// One that has been processed is left alone unless all are processed again. What the search
/// found goes along unchanged, and so does the identity under which the image is listed.
pub proof fn images_are_worked_through_in_order(
    worker: Worker,
    image_path: Seq<u8>,
    step: WorkStep,
    event: WorkEvent,
    next: Option<WorkStep>,
)
    requires
        is_work_step(worker, image_path, step, event, next),
    ensures
        step is LookUp && (event matches WorkEvent::LookedUp { processed } && !processed) ==> (
        next matches Some(WorkStep::Detect)),
        step is Detect ==> (event matches WorkEvent::Detected { detection } ==> (next matches Some(
            WorkStep::Register { detection: d },
        ) && d == detection)),
        step is Detect ==> (event matches WorkEvent::NotDetected { error } ==> (next matches Some(
            WorkStep::RegisterFailed { error: e },
        ) && e == error)),
        step matches WorkStep::Register { detection } ==> (
        event matches WorkEvent::Registered { identity } ==> {
            let skip = identity.already_processed && !worker.reprocess;
            &&& skip ==> (next matches Some(WorkStep::Finish { result }) && result.skipped)
            &&& !skip && !detection.found ==> (next matches Some(WorkStep::Save { outcome })
                && outcome.record.image_id == identity.id && outcome.sort_status@
                == "no_sticker_found"@ && outcome.sort_number is None)
            &&& !skip && detection.found && !detection.has_warped_sticker ==> (
            next matches Some(WorkStep::Finish { result }) && !result.skipped
                && result.error is Some)
            &&& !skip && detection.found && detection.has_warped_sticker ==> (
            next matches Some(WorkStep::Read { image_id, detection: d, debug }) && image_id
                == identity.id && d == detection)
        }),
        step matches WorkStep::RegisterFailed { error } ==> (
        event matches WorkEvent::Registered { identity } ==> (next matches Some(
            WorkStep::Save { outcome },
        ) && outcome.record.image_id == identity.id && outcome.sort_status@ == "needs_review"@
            && outcome.sort_number is None)),
        step matches WorkStep::Read { image_id, detection, debug } ==> (
        event matches WorkEvent::WasRead { reading } ==> (next matches Some(
            WorkStep::Save { outcome },
        ) && outcome.record.image_id == image_id)),
        step matches WorkStep::Save { outcome } ==> (event is Saved ==> (next matches Some(
            WorkStep::Place { status, number, result },
        ) && status@ == outcome.sort_status@ && result.status@ == outcome.record.status@
            && !result.skipped && result.error is None)),
        step matches WorkStep::Place { status, number, result } ==> (event is Placed ==> (
        next matches Some(WorkStep::Finish { result: r }) && r == result)),
{
    if let WorkStep::Register { detection } = step {
        if let WorkEvent::Registered { identity } = event {
            if !(identity.already_processed && !worker.reprocess) && !detection.found {
                let outcome = next->0->outcome;
                let reading = Reading {
                    ocr: None,
                    variant: outcome.sort_status,
                    combined_confidence: Score { bits: 0 },
                };
                let debug = DebugPaths {
                    warped_sticker: None,
                    number_crop: None,
                    thresholded_crop: None,
                };
                assert(is_outcome(
                    outcome,
                    identity.id,
                    detection,
                    reading,
                    debug,
                    worker.thresholds,
                ));
            }
        }
    }
}

/// Something that goes wrong ends the work on an image, with the error; only while the
/// sticker is searched for does it not, and once nothing is left to do.
pub proof fn faults_end_the_work(
    worker: Worker,
    image_path: Seq<u8>,
    step: WorkStep,
    error: String,
    next: Option<WorkStep>,
)
    requires
        is_work_step(worker, image_path, step, WorkEvent::Failed { error }, next),
    ensures
        step is Detect || step is Finish <==> next is None,
        next matches Some(n) ==> (n matches WorkStep::Finish { result } && result.status@
            == "failed"@ && !result.skipped && (result.error matches Some(e) && e@ == error@)),
{
}

/// One result more counts as skipped where it was skipped, else as failed where there is an
/// error, else as processed, and then under its own status and no other.
pub proof fn results_are_counted_by_what_they_are(
    results: Seq<ImageRunResult>,
    next: ImageRunResult,
    status: Seq<char>,
)
    ensures
        ({
            let more = results.push(next);
            let processed = !next.skipped && next.error is None;
            &&& skipped_count(more) == skipped_count(results) + (if next.skipped {
                1nat
            } else {
                0
            })
            &&& failed_count(more) == failed_count(results) + (if !next.skipped
                && next.error is Some {
                1nat
            } else {
                0
            })
            &&& processed_count(more) == processed_count(results) + (if processed {
                1nat
            } else {
                0
            })
            &&& counted(more, status) == counted(results, status) + (if processed && next.status@
                == status {
                1nat
            } else {
                0
            })
            &&& skipped_count(Seq::empty()) == 0
            &&& failed_count(Seq::empty()) == 0
            &&& processed_count(Seq::empty()) == 0
            &&& counted(Seq::empty(), status) == 0
        }),
{
    reveal(Seq::filter);
    assert(results.push(next).drop_last() =~= results);
}

/// The intermediate images of an event stand in a folder `event_` and its number below
/// `_debug`, and those of an image are named by its number and its file, with an extension
/// each.
pub proof fn intermediate_images_have_their_places(
    debug: DebugPaths,
    output_dir: Seq<u8>,
    event_id: i64,
    image_id: i64,
    image_path: Seq<u8>,
    base: Seq<u8>,
)
    requires
        debug.are_for(true, output_dir, event_id, image_id, image_path),
        paths::file_stem_text(image_path) matches Some(stem) && base == vstd::utf8::encode_utf8(
            text::signed_decimal(image_id as int) + "_"@ + stem,
        ),
        !base.contains(46u8),
    ensures
        ({
            let folder = paths::joined(
                paths::joined(output_dir, vstd::utf8::encode_utf8("_debug"@)),
                vstd::utf8::encode_utf8("event_"@ + text::signed_decimal(event_id as int)),
            );
            &&& debug.warped_sticker matches Some(p) && p@ == paths::joined(
                folder,
                base + seq![46u8] + paths::ascii("warped_sticker.png"@),
            )
            &&& debug.number_crop matches Some(p) && p@ == paths::joined(
                folder,
                base + seq![46u8] + paths::ascii("number_crop.png"@),
            )
            &&& debug.thresholded_crop matches Some(p) && p@ == paths::joined(
                folder,
                base + seq![46u8] + paths::ascii("thresholded_number.png"@),
            )
        }),
{
    paths::names_split_at_the_last_dot(base, base);
    assert(base.push(46u8) =~= base + seq![46u8]);
}

/// Without the debugging mode no intermediate image is written.
pub proof fn nothing_is_written_unasked(
    debug: DebugPaths,
    output_dir: Seq<u8>,
    event_id: i64,
    image_id: i64,
    image_path: Seq<u8>,
)
    requires
        debug.are_for(false, output_dir, event_id, image_id, image_path),
    ensures
        debug.warped_sticker is None,
        debug.number_crop is None,
        debug.thresholded_crop is None,
{
}

/// The remark on an image without a number tells why: what the search said, or that no
/// sticker was found; that nothing was read; or what was read, with both confidences and the
/// number of matches.
pub proof fn remarks_tell_why(detection: StickerDetection, ocr: Option<OcrResult>)
    ensures
        !detection.found ==> remark(detection, ocr) == seq![
            note::words(
                match detection.note {
                    Some(n) => n@,
                    None => "sticker not found"@,
                },
            ),
        ],
        detection.found && ocr is None ==> remark(detection, ocr) == seq![
            note::words("OCR returned no digit candidate"@),
        ],
        detection.found ==> (ocr matches Some(read) ==> remark(detection, ocr) == seq![
            note::words("low confidence OCR digits='"@),
            note::words(read.text@),
            note::words("' ocr="@),
            note::fixed(read.confidence, 2),
            note::words(" sticker="@),
            note::fixed(detection.match_confidence, 2),
            note::words(" good_matches="@),
            note::words(text::decimal(detection.good_match_count as nat)),
        ]),
{
}

/// An image whose search failed is left for review without a number, with the error.
pub proof fn failed_searches_are_left_for_review(
    outcome: ProcessedImage,
    image_id: i64,
    error: Seq<char>,
)
    requires
        is_failure_outcome(outcome, image_id, error),
    ensures
        outcome.record.image_id == image_id,
        outcome.record.status@ == outcome.sort_status@,
        outcome.record.assignment.assignment_method@ == outcome.sort_status@,
        sorter::folder_name(outcome.sort_status@, text::optional_text(outcome.sort_number))
            == "_review"@,
        outcome.record.assignment.needs_review,
        outcome.record.assignment.final_number is None,
        outcome.sort_number is None,
        !outcome.record.sticker_match.found,
        !outcome.record.sticker_match.homography_valid,
        outcome.record.sticker_match.match_confidence.bits == 0,
        outcome.record.sticker_match.good_match_count == 0,
        outcome.record.sticker_match.warped_sticker_path is None,
        outcome.record.sticker_match.number_crop_path is None,
        outcome.record.assignment.confidence.bits == 0,
        outcome.record.ocr_result is None,
        outcome.record.assignment.notes matches Some(n) && n@ == seq![
            note::words("processing failed: "@),
            note::words(error),
        ],
{
    lemma_statuses_differ();
    reveal_strlit("ambiguous");
    reveal_strlit("assigned_by_visual_match");
    assert("ambiguous"@.len() == 9);
    assert("assigned_by_visual_match"@.len() == 24);
}

/// How the sticker was found is recorded as the search told it, with the intermediate images
/// only where there was a sticker.
pub proof fn searches_are_recorded(
    outcome: ProcessedImage,
    image_id: i64,
    detection: StickerDetection,
    reading: Reading,
    debug: DebugPaths,
    thresholds: ProcessingThresholds,
)
    requires
        is_outcome(outcome, image_id, detection, reading, debug, thresholds),
    ensures
        ({
            let found = outcome.record.sticker_match;
            &&& found.found == detection.found
            &&& found.match_confidence == detection.match_confidence
            &&& detection.good_match_count <= i32::MAX ==> found.good_match_count
                == detection.good_match_count
            &&& found.homography_valid == detection.homography_valid
            &&& detection.found ==> paths::optional_view(found.warped_sticker_path)
                == paths::optional_view(debug.warped_sticker) && paths::optional_view(
                found.number_crop_path,
            ) == paths::optional_view(debug.number_crop)
            &&& !detection.found ==> found.warped_sticker_path is None
                && found.number_crop_path is None
        }),
        outcome.record.ocr_result matches Some(r) ==> r.raw_text@ == reading.ocr->0.raw()
            && r.preprocessing_variant@ == reading.variant@,
        outcome.record.assignment.needs_review <==> outcome.record.assignment.notes is Some,
{
}

/// What became of an image: one that was left as it is says so and counts as skipped, one
/// that something went wrong with has failed with its error, and one that was worked on has
/// its status. No two of these are the same.
pub proof fn results_say_what_they_are(result: ImageRunResult, status: Seq<char>, error: Seq<char>)
    ensures
        is_skipped(result) <==> result.skipped && result.error is None && result.status@
            == "skipped"@,
        is_failed(result, error) <==> !result.skipped && (result.error matches Some(e) && e@
            == error) && result.status@ == "failed"@,
        is_result(result, status) <==> !result.skipped && result.error is None && result.status@
            == status,
        !(is_skipped(result) && is_failed(result, error)),
        !(is_skipped(result) && is_result(result, status)),
        !(is_failed(result, error) && is_result(result, status)),
{
}

/// Once an image is listed after its search, one that was worked on before is skipped, unless
/// all are to be worked on again; one without a sticker is recorded, whatever reading and
/// paths there might be; a sticker without its picture is a failure; and a sticker with it is
/// read.
pub proof fn listed_images_go_on(
    worker: Worker,
    image_path: Seq<u8>,
    detection: StickerDetection,
    identity: ImageIdentity,
    next: WorkStep,
    reading: Reading,
    debug: DebugPaths,
)
    requires
        follows_registration(worker, image_path, detection, identity, next),
    ensures
        ({
            let skip = identity.already_processed && !worker.reprocess;
            &&& skip ==> (next matches WorkStep::Finish { result } && result.skipped)
            &&& !skip && !detection.found ==> (next matches WorkStep::Save { outcome }
                && outcome.record.image_id == identity.id && outcome.sort_status@
                == "no_sticker_found"@ && is_outcome(
                outcome,
                identity.id,
                detection,
                reading,
                debug,
                worker.thresholds,
            ))
            &&& !skip && detection.found && !detection.has_warped_sticker ==> (
            next matches WorkStep::Finish { result } && !result.skipped && (
            result.error matches Some(e) && e@
                == "sticker detection was found but no warped sticker was produced"@))
            &&& !skip && detection.found && detection.has_warped_sticker ==> (
            next matches WorkStep::Read { image_id, detection: d, debug } && image_id == identity.id
                && d == detection)
        }),
{
    if !(identity.already_processed && !worker.reprocess) && !detection.found {
        let outcome = next->outcome;
        assert(is_outcome(outcome, identity.id, detection, reading, debug, worker.thresholds));
    }
}

}
