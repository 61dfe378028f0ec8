//! What is recorded of the images of an event.

use crate::note::Note;
use crate::paths;
use crate::paths::FilePath;
use crate::score::Score;
use crate::text;
use vstd::prelude::*;

verus! {

/// The file that the results of an event are kept in.
#[derive(Debug)]
pub struct ProcessingDb {
    pub path: FilePath,
}

impl ProcessingDb {
    /// The results kept at a path.
    pub fn open(path: FilePath) -> (db: ProcessingDb)
        ensures
            db.path == path,
    {
        ProcessingDb { path }
    }

    /// Where the results are kept.
    pub fn path(&self) -> (path: &FilePath)
        ensures
            *path == self.path,
    {
        &self.path
    }
}

/// An image of an event: its row, and whether it has been processed.
#[derive(Clone, Copy, Debug, PartialEq, Eq, Structural)]
pub struct ImageIdentity {
    pub id: i64,
    pub already_processed: bool,
}

/// How the sticker was found.
#[derive(Debug)]
pub struct StickerMatchRecord {
    pub found: bool,
    pub match_confidence: Score,
    pub good_match_count: i32,
    pub homography_valid: bool,
    pub warped_sticker_path: Option<FilePath>,
    pub number_crop_path: Option<FilePath>,
}

/// What was read from the number region.
#[derive(Debug)]
pub struct OcrRecord {
    pub raw_text: String,
    pub digits_only: String,
    pub confidence: Score,
    pub preprocessing_variant: String,
    pub is_high_confidence: bool,
}

/// The number that an image was given, if any, and why.
#[derive(Debug)]
pub struct AssignmentRecord {
    pub final_number: Option<String>,
    pub assignment_method: String,
    pub confidence: Score,
    pub needs_review: bool,
    pub notes: Option<Note>,
}

/// Everything that is recorded of an image.
#[derive(Debug)]
pub struct ImageProcessingRecord {
    pub image_id: i64,
    pub status: String,
    pub sticker_match: StickerMatchRecord,
    pub ocr_result: Option<OcrRecord>,
    pub assignment: AssignmentRecord,
}

/// The texts under which an image is listed.
#[derive(Debug)]
pub struct ImageRow {
    pub file_name: String,
    pub file_path: String,
}

/// The texts under which an image is listed: its file name, or `image` where
/// that is not text, and its whole path.
pub fn image_row(path: &FilePath) -> (row: ImageRow)
    ensures
        row.file_name@ == (match paths::file_name_text(path@) {
            Some(name) => name,
            None => "image"@,
        }),
        row.file_path@ == paths::shown(path@),
{
    let file_name = match path.file_name_text() {
        Some(name) => name,
        None => text::owned("image"),
    };
    ImageRow { file_name, file_path: path.display_text() }
}

/// The identity that a row gives: an image has been processed once that has a date.
pub fn identity_of(id: i64, processed_at: &Option<String>) -> (identity: ImageIdentity)
    ensures
        identity == (ImageIdentity { id, already_processed: processed_at is Some }),
{
    ImageIdentity { id, already_processed: processed_at.is_some() }
}

/// Whether a lookup shows that an image has been processed: there is a row, and
/// it has a date.
pub fn is_image_processed(found: &Option<Option<String>>) -> (processed: bool)
    ensures
        processed == (found matches Some(date) && date is Some),
{
    match found {
        Some(date) => date.is_some(),
        None => false,
    }
}

/// The text that a path is kept as, where there is one.
pub fn optional_path(path: &Option<FilePath>) -> (s: Option<String>)
    ensures
        text::optional_text(s) == (match *path {
            Some(p) => Some(paths::shown(p@)),
            None => None,
        }),
{
    match path {
        Some(p) => Some(p.display_text()),
        None => None,
    }
}

}
