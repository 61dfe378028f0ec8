//! Autonomous numbering of a folder: every image is read, and moved into the
//! folder of its number or, where the number is not sure, into one for review.
//! Several workers share a run; what each is to do next is decided here.

use crate::image_loader;
use crate::image_loader::DirEntry;
use crate::ocr_result::OcrResult;
use crate::paths;
use crate::paths::FilePath;
use crate::score::Score;
use crate::sorter;
use crate::text;
use vstd::prelude::*;

verus! {

/// Counts over a finished run.
#[derive(Clone, Copy, Debug, PartialEq, Eq, Structural)]
pub struct AutonomousNumberingSummary {
    pub discovered: usize,
    pub processed: usize,
    pub assigned: usize,
    pub needs_review: usize,
    pub already_completed: usize,
    pub skipped_missing: usize,
    pub failed: usize,
    pub cancelled: bool,
}

/// What became of an image.
#[derive(Clone, Copy, Debug, PartialEq, Eq, Structural)]
pub enum AutonomousNumberingItemStatus {
    Assigned,
    NeedsReview,
    AlreadyCompleted,
    SkippedMissing,
    Failed,
}

/// What became of an image, with the number that was read and where it went.
#[derive(Debug)]
pub struct AutonomousNumberingItemResult {
    pub file_name: String,
    pub status: AutonomousNumberingItemStatus,
    pub number: Option<String>,
    pub confidence: Option<Score>,
    pub destination: Option<FilePath>,
    pub error: Option<String>,
}

/// Two results that say the same.
pub open spec fn same_result(
    a: AutonomousNumberingItemResult,
    b: AutonomousNumberingItemResult,
) -> bool {
    &&& a.file_name@ == b.file_name@
    &&& a.status == b.status
    &&& text::optional_text(a.number) == text::optional_text(b.number)
    &&& a.confidence == b.confidence
    &&& paths::optional_view(a.destination) == paths::optional_view(b.destination)
    &&& text::optional_text(a.error) == text::optional_text(b.error)
}

impl Clone for AutonomousNumberingItemResult {
    fn clone(&self) -> (copy: Self)
        ensures
            same_result(copy, *self),
    {
        AutonomousNumberingItemResult {
            file_name: self.file_name.clone(),
            status: self.status,
            number: text::copy_optional(&self.number),
            confidence: self.confidence,
            destination: paths::copy_optional(&self.destination),
            error: text::copy_optional(&self.error),
        }
    }
}

/// What an autonomous run is asked for: the folder, how sure a number has to be,
/// and how many workers may share it.
#[derive(Debug)]
pub struct AutonomousNumberingConfig {
    pub source_dir: FilePath,
    pub min_confidence: Score,
    pub max_workers: usize,
}

/// How a run stands.
#[derive(Debug)]
pub struct AutonomousNumberingProgress {
    pub completed: usize,
    pub total: usize,
    pub assigned: usize,
    pub needs_review: usize,
    pub already_completed: usize,
    pub skipped_missing: usize,
    pub failed: usize,
    pub active_files: Vec<String>,
    pub last_message: String,
    pub last_result: Option<AutonomousNumberingItemResult>,
}

/// The name of the file as text, or a question mark.
pub open spec fn shown_name(path: Seq<u8>) -> Seq<char> {
    match paths::file_name_text(path) {
        Some(name) => name,
        None => "?"@,
    }
}

/// The name of the file as text, or a question mark.
pub fn path_file_name(path: &FilePath) -> (name: String)
    ensures
        name@ == shown_name(path@),
{
    match path.file_name_text() {
        Some(name) => name,
        None => text::owned("?"),
    }
}

/// The images that stand directly in a folder, as they come.
pub open spec fn images_of(entries: Seq<DirEntry>) -> Seq<Seq<u8>>
    decreases entries.len(),
{
    if entries.len() == 0 {
        Seq::empty()
    } else {
        let before = images_of(entries.drop_last());
        match entries.last() {
            DirEntry::File(path) => if image_loader::is_image(path@) {
                before.push(path@)
            } else {
                before
            },
            _ => before,
        }
    }
}

/// Finds the images that stand directly in a folder, in the order of their paths.
pub fn discover_numbering_images(entries: &Vec<DirEntry>) -> (images: Vec<FilePath>)
    ensures
        paths::paths_sorted(paths::paths_view(images@)),
        paths::paths_view(images@).to_multiset() == images_of(entries@).to_multiset(),
{
    let mut images: Vec<FilePath> = Vec::new();
    let mut i: usize = 0;
    proof {
        assert(entries@.take(0) =~= Seq::<DirEntry>::empty());
        assert(paths::paths_view(images@) =~= Seq::empty());
    }
    while i < entries.len()
        invariant
            i <= entries@.len(),
            paths::paths_view(images@) == images_of(entries@.take(i as int)),
        decreases entries@.len() - i,
    {
        proof {
            assert(entries@.take(i + 1).drop_last() =~= entries@.take(i as int));
            assert(entries@.take(i + 1).last() == entries@[i as int]);
        }
        let ghost so_far = paths::paths_view(images@);
        match &entries[i] {
            DirEntry::File(path) => {
                if image_loader::is_supported_image(path) {
                    images.push(path.clone());
                    assert(paths::paths_view(images@) =~= so_far.push(path@));
                }
            },
            _ => {},
        }
        i += 1;
    }
    assert(entries@.take(i as int) =~= entries@);
    paths::sort_paths(&mut images);
    images
}

/// How many workers share a run: as many as wanted, but no more than the machine
/// runs at once, than four, or than there are images; one at least, where there
/// is an image.
pub open spec fn workers_for(max_workers: usize, available: usize, total: usize) -> usize {
    let wanted = if max_workers < 1 {
        1
    } else {
        max_workers
    };
    let possible = if available < wanted {
        available
    } else {
        wanted
    };
    let few = if possible < 4 {
        possible
    } else {
        4
    };
    if total < few {
        total
    } else {
        few
    }
}

/// How many workers share a run.
pub fn worker_count(max_workers: usize, available: usize, total: usize) -> (count: usize)
    ensures
        count == workers_for(max_workers, available, total),
        count <= 4,
        available >= 1 && total >= 1 ==> count >= 1,
{
    if total == 0 {
        return 0;
    }
    let wanted: usize = if max_workers < 1 {
        1
    } else {
        max_workers
    };
    let possible: usize = if available < wanted {
        available
    } else {
        wanted
    };
    let few: usize = if possible < 4 {
        possible
    } else {
        4
    };
    if total < few {
        total
    } else {
        few
    }
}

/// How many images had each outcome so far.
#[derive(Clone, Copy, Debug, PartialEq, Eq, Structural)]
pub struct Counters {
    pub completed: usize,
    pub assigned: usize,
    pub needs_review: usize,
    pub already_completed: usize,
    pub skipped_missing: usize,
    pub failed: usize,
}

impl Counters {
    /// The outcomes together.
    pub open spec fn sum(self) -> int {
        self.assigned + self.needs_review + self.already_completed + self.skipped_missing
            + self.failed
    }

    /// The counters after one more outcome.
    pub open spec fn after(self, status: AutonomousNumberingItemStatus) -> Counters {
        let completed = (self.completed + 1) as usize;
        match status {
            AutonomousNumberingItemStatus::Assigned => Counters {
                completed,
                assigned: (self.assigned + 1) as usize,
                ..self
            },
            AutonomousNumberingItemStatus::NeedsReview => Counters {
                completed,
                needs_review: (self.needs_review + 1) as usize,
                ..self
            },
            AutonomousNumberingItemStatus::AlreadyCompleted => Counters {
                completed,
                already_completed: (self.already_completed + 1) as usize,
                ..self
            },
            AutonomousNumberingItemStatus::SkippedMissing => Counters {
                completed,
                skipped_missing: (self.skipped_missing + 1) as usize,
                ..self
            },
            AutonomousNumberingItemStatus::Failed => Counters {
                completed,
                failed: (self.failed + 1) as usize,
                ..self
            },
        }
    }
}

/// The texts of the slots that are in use.
pub open spec fn used_slots(slots: Seq<Option<String>>) -> Seq<Seq<char>>
    decreases slots.len(),
{
    if slots.len() == 0 {
        Seq::empty()
    } else {
        match slots.last() {
            Some(name) => used_slots(slots.drop_last()).push(name@),
            None => used_slots(slots.drop_last()),
        }
    }
}

/// A run over the images of a folder: which are still to be given out, what the
/// workers are at, and what became of the rest.
#[derive(Debug)]
pub struct AutonomousRun {
    pub paths: Vec<FilePath>,
    pub next_index: usize,
    pub counters: Counters,
    pub active: Vec<Option<String>>,
}

/// A report on a run.
pub open spec fn is_report(
    progress: AutonomousNumberingProgress,
    run: AutonomousRun,
    message: Seq<char>,
    last_result: Option<AutonomousNumberingItemResult>,
) -> bool {
    &&& progress.completed == run.counters.completed
    &&& progress.total == run.paths@.len()
    &&& progress.assigned == run.counters.assigned
    &&& progress.needs_review == run.counters.needs_review
    &&& progress.already_completed == run.counters.already_completed
    &&& progress.skipped_missing == run.counters.skipped_missing
    &&& progress.failed == run.counters.failed
    &&& text::texts(progress.active_files@) == used_slots(run.active@)
    &&& progress.last_message@ == message
    &&& progress.last_result == last_result
}

/// What a message says of an outcome.
pub open spec fn message_for(item: AutonomousNumberingItemResult) -> Seq<char> {
    match item.status {
        AutonomousNumberingItemStatus::Assigned => "Assigned "@ + item.file_name@ + " to "@ + (
        match item.number {
            Some(n) => n@,
            None => "?"@,
        }),
        AutonomousNumberingItemStatus::NeedsReview => "Left "@ + item.file_name@ + " for review"@,
        AutonomousNumberingItemStatus::AlreadyCompleted => "Skipped already-numbered file "@
            + item.file_name@,
        AutonomousNumberingItemStatus::SkippedMissing => "Skipped missing file "@ + item.file_name@,
        AutonomousNumberingItemStatus::Failed => "Failed "@ + item.file_name@ + ": "@ + (
        match item.error {
            Some(e) => e@,
            None => "unknown error"@,
        }),
    }
}

/// Says what became of an image.
pub fn item_message(item: &AutonomousNumberingItemResult) -> (message: String)
    ensures
        message@ == message_for(*item),
{
    let name = item.file_name.as_str();
    match item.status {
        AutonomousNumberingItemStatus::Assigned => {
            let mut message = text::owned("Assigned ");
            text::push_text(&mut message, name);
            text::push_text(&mut message, " to ");
            match &item.number {
                Some(n) => text::push_text(&mut message, n.as_str()),
                None => text::push_text(&mut message, "?"),
            }
            message
        },
        AutonomousNumberingItemStatus::NeedsReview => {
            let mut message = text::owned("Left ");
            text::push_text(&mut message, name);
            text::push_text(&mut message, " for review");
            message
        },
        AutonomousNumberingItemStatus::AlreadyCompleted => {
            let mut message = text::owned("Skipped already-numbered file ");
            text::push_text(&mut message, name);
            message
        },
        AutonomousNumberingItemStatus::SkippedMissing => {
            let mut message = text::owned("Skipped missing file ");
            text::push_text(&mut message, name);
            message
        },
        AutonomousNumberingItemStatus::Failed => {
            let mut message = text::owned("Failed ");
            text::push_text(&mut message, name);
            text::push_text(&mut message, ": ");
            match &item.error {
                Some(e) => text::push_text(&mut message, e.as_str()),
                None => text::push_text(&mut message, "unknown error"),
            }
            message
        },
    }
}

impl AutonomousRun {
    /// Outcomes are counted once, and only of images that were given out.
    pub open spec fn wf(&self) -> bool {
        &&& self.counters.sum() == self.counters.completed
        &&& self.counters.completed <= self.paths@.len()
        &&& self.next_index <= self.paths@.len()
    }

    /// The counters of a run in which nothing is done.
    pub open spec fn untouched(&self) -> bool {
        &&& self.next_index == 0
        &&& self.counters.completed == 0
        &&& self.counters.sum() == 0
    }

    /// How many images the run has.
    pub fn total(&self) -> (total: usize)
        ensures
            total == self.paths@.len(),
    {
        self.paths.len()
    }

    /// Starts a run over the images of a folder, the last one first.
    pub fn begin(found: Vec<FilePath>, workers: usize) -> (run: AutonomousRun)
        ensures
            run.wf(),
            run.untouched(),
            paths::paths_view(run.paths@) == paths::paths_view(found@).reverse(),
            run.active@.len() == workers,
            forall|i: int| 0 <= i < workers ==> (#[trigger] run.active@[i]) is None,
            used_slots(run.active@) == Seq::<Seq<char>>::empty(),
    {
        let mut found = found;
        let ghost given = found@;
        let mut reversed: Vec<FilePath> = Vec::new();
        while found.len() > 0
            invariant
                found@.len() + reversed@.len() == given.len(),
                found@ == given.take(found@.len() as int),
                forall|i: int|
                    0 <= i < reversed@.len() ==> #[trigger] reversed@[i] == given[given.len() - 1
                        - i],
            decreases found@.len(),
        {
            let ghost n = found@.len() as int;
            match found.pop() {
                Some(path) => {
                    assert(path == given[n - 1]);
                    reversed.push(path);
                },
                None => {},
            }
            assert(found@ =~= given.take(n - 1));
        }
        let mut active: Vec<Option<String>> = Vec::new();
        while active.len() < workers
            invariant
                active@.len() <= workers,
                forall|i: int| 0 <= i < active@.len() ==> (#[trigger] active@[i]) is None,
                used_slots(active@) == Seq::<Seq<char>>::empty(),
            decreases workers - active@.len(),
        {
            let ghost before = active@;
            active.push(None);
            assert(active@.drop_last() =~= before);
        }
        let counters = Counters {
            completed: 0,
            assigned: 0,
            needs_review: 0,
            already_completed: 0,
            skipped_missing: 0,
            failed: 0,
        };
        let run = AutonomousRun { paths: reversed, next_index: 0, counters, active };
        assert(paths::paths_view(run.paths@) =~= paths::paths_view(given).reverse());
        run
    }

    /// Reports how the run stands.
    pub fn snapshot(
        &self,
        last_message: String,
        last_result: Option<AutonomousNumberingItemResult>,
    ) -> (progress: AutonomousNumberingProgress)
        ensures
            is_report(progress, *self, last_message@, last_result),
    {
        let mut active_files: Vec<String> = Vec::new();
        let mut i: usize = 0;
        proof {
            assert(self.active@.take(0) =~= Seq::<Option<String>>::empty());
            assert(text::texts(active_files@) =~= Seq::<Seq<char>>::empty());
        }
        while i < self.active.len()
            invariant
                i <= self.active@.len(),
                text::texts(active_files@) == used_slots(self.active@.take(i as int)),
            decreases self.active@.len() - i,
        {
            proof {
                assert(self.active@.take(i + 1).drop_last() =~= self.active@.take(i as int));
                assert(self.active@.take(i + 1).last() == self.active@[i as int]);
            }
            let ghost so_far = text::texts(active_files@);
            match &self.active[i] {
                Some(name) => {
                    active_files.push(name.clone());
                    assert(text::texts(active_files@) =~= so_far.push(name@));
                },
                None => {},
            }
            i += 1;
        }
        assert(self.active@.take(i as int) =~= self.active@);
        AutonomousNumberingProgress {
            completed: self.counters.completed,
            total: self.paths.len(),
            assigned: self.counters.assigned,
            needs_review: self.counters.needs_review,
            already_completed: self.counters.already_completed,
            skipped_missing: self.counters.skipped_missing,
            failed: self.counters.failed,
            active_files,
            last_message,
            last_result,
        }
    }

    /// Reports that the images were found.
    pub fn ready(&self) -> (progress: AutonomousNumberingProgress)
        ensures
            is_report(
                progress,
                *self,
                "Ready - "@ + text::decimal(self.paths@.len()) + " images discovered"@,
                None,
            ),
    {
        let mut message = text::owned("Ready - ");
        text::push_decimal(&mut message, self.paths.len() as u64);
        text::push_text(&mut message, " images discovered");
        self.snapshot(message, None)
    }

    /// Counts all images as failed, because nothing can be read, and reports it.
    pub fn ocr_unavailable(&mut self) -> (progress: AutonomousNumberingProgress)
        requires
            old(self).wf(),
            old(self).untouched(),
        ensures
            final(self).wf(),
            final(self).paths == old(self).paths,
            final(self).active == old(self).active,
            final(self).next_index == 0,
            final(self).counters == (Counters {
                completed: old(self).paths@.len() as usize,
                assigned: 0,
                needs_review: 0,
                already_completed: 0,
                skipped_missing: 0,
                failed: old(self).paths@.len() as usize,
            }),
            progress.last_result matches Some(item) && {
                &&& is_report(progress, *final(self), "OCR engine is unavailable"@, Some(item))
                &&& item.file_name@ == "OCR"@
                &&& item.status == AutonomousNumberingItemStatus::Failed
                &&& item.number is None
                &&& item.confidence is None
                &&& item.destination is None
                &&& text::optional_text(item.error) == Some("OCR engine is unavailable"@)
            },
    {
        let total: usize = self.paths.len();
        self.counters.failed = total;
        self.counters.completed = total;
        let item = AutonomousNumberingItemResult {
            file_name: text::owned("OCR"),
            status: AutonomousNumberingItemStatus::Failed,
            number: None,
            confidence: None,
            destination: None,
            error: Some(text::owned("OCR engine is unavailable")),
        };
        self.snapshot(text::owned("OCR engine is unavailable"), Some(item))
    }

    /// Gives the next image to a worker, unless the run is cancelled or all images
    /// have been given out, and reports it.
    pub fn claim(&mut self, slot: usize, cancelled: bool) -> (claimed: Option<
        (FilePath, AutonomousNumberingProgress),
    >)
        requires
            old(self).wf(),
        ensures
            final(self).wf(),
            final(self).paths == old(self).paths,
            final(self).counters == old(self).counters,
            claimed is None <==> (cancelled || old(self).next_index >= old(self).paths@.len()),
            claimed is None ==> *final(self) == *old(self),
            claimed matches Some((path, progress)) ==> {
                &&& path@ == old(self).paths@[old(self).next_index as int]@
                &&& final(self).next_index == old(self).next_index + 1
                &&& final(self).active@.len() == old(self).active@.len()
                &&& forall|i: int|
                    0 <= i < old(self).active@.len() && i != slot ==> #[trigger] final(
                        self).active@[i] == old(self).active@[i]
                &&& slot < old(self).active@.len() ==> text::optional_text(
                    final(self).active@[slot as int],
                ) == Some(shown_name(path@))
                &&& is_report(progress, *final(self), "Processing "@ + shown_name(path@), None)
            },
    {
        if cancelled || self.next_index >= self.paths.len() {
            return None;
        }
        let path = self.paths[self.next_index].clone();
        self.next_index = self.next_index + 1;
        let name = path_file_name(&path);
        let mut message = text::owned("Processing ");
        text::push_text(&mut message, name.as_str());
        self.set_active(slot, name);
        let progress = self.snapshot(message, None);
        Some((path, progress))
    }

    fn set_active(&mut self, slot: usize, file_name: String)
        ensures
            final(self).paths == old(self).paths,
            final(self).next_index == old(self).next_index,
            final(self).counters == old(self).counters,
            final(self).active@ == (if slot < old(self).active@.len() {
                old(self).active@.update(slot as int, Some(file_name))
            } else {
                old(self).active@
            }),
    {
        if slot < self.active.len() {
            self.active.set(slot, Some(file_name));
        }
    }

    fn clear_active(&mut self, slot: usize)
        ensures
            final(self).paths == old(self).paths,
            final(self).next_index == old(self).next_index,
            final(self).counters == old(self).counters,
            final(self).active@ == (if slot < old(self).active@.len() {
                old(self).active@.update(slot as int, None)
            } else {
                old(self).active@
            }),
    {
        if slot < self.active.len() {
            self.active.set(slot, None);
        }
    }

    /// Counts an outcome.
    fn apply_item_result(&mut self, status: AutonomousNumberingItemStatus)
        requires
            old(self).wf(),
            old(self).counters.completed < old(self).paths@.len(),
        ensures
            final(self).wf(),
            final(self).paths == old(self).paths,
            final(self).next_index == old(self).next_index,
            final(self).active == old(self).active,
            final(self).counters == old(self).counters.after(status),
    {
        let limit: usize = self.paths.len();
        assert(self.counters.completed < limit);
        match status {
            AutonomousNumberingItemStatus::Assigned => {
                self.counters.assigned = self.counters.assigned + 1;
            },
            AutonomousNumberingItemStatus::NeedsReview => {
                self.counters.needs_review = self.counters.needs_review + 1;
            },
            AutonomousNumberingItemStatus::AlreadyCompleted => {
                self.counters.already_completed = self.counters.already_completed + 1;
            },
            AutonomousNumberingItemStatus::SkippedMissing => {
                self.counters.skipped_missing = self.counters.skipped_missing + 1;
            },
            AutonomousNumberingItemStatus::Failed => {
                self.counters.failed = self.counters.failed + 1;
            },
        }
        self.counters.completed = self.counters.completed + 1;
    }

    /// Takes note of what became of an image that a worker had, and reports it.
    pub fn complete(&mut self, slot: usize, item: AutonomousNumberingItemResult) -> (progress:
        AutonomousNumberingProgress)
        requires
            old(self).wf(),
            old(self).counters.completed < old(self).paths@.len(),
        ensures
            final(self).wf(),
            final(self).paths == old(self).paths,
            final(self).next_index == old(self).next_index,
            final(self).counters == old(self).counters.after(item.status),
            final(self).active@ == (if slot < old(self).active@.len() {
                old(self).active@.update(slot as int, None)
            } else {
                old(self).active@
            }),
            is_report(progress, *final(self), message_for(item), Some(item)),
    {
        self.apply_item_result(item.status);
        self.clear_active(slot);
        let message = item_message(&item);
        self.snapshot(message, Some(item))
    }

    /// Sums up the run.
    pub fn summary(&self, cancelled: bool) -> (summary: AutonomousNumberingSummary)
        requires
            self.wf(),
        ensures
            summary == summary_of(*self, cancelled),
    {
        let c = self.counters;
        assert(c.sum() <= usize::MAX);
        let processed: usize = c.assigned + c.needs_review + c.already_completed
            + c.skipped_missing + c.failed;
        AutonomousNumberingSummary {
            discovered: self.paths.len(),
            processed,
            assigned: c.assigned,
            needs_review: c.needs_review,
            already_completed: c.already_completed,
            skipped_missing: c.skipped_missing,
            failed: c.failed,
            cancelled,
        }
    }
}

/// What a run comes to.
pub open spec fn summary_of(run: AutonomousRun, cancelled: bool) -> AutonomousNumberingSummary {
    AutonomousNumberingSummary {
        discovered: run.paths@.len() as usize,
        processed: run.counters.sum() as usize,
        assigned: run.counters.assigned,
        needs_review: run.counters.needs_review,
        already_completed: run.counters.already_completed,
        skipped_missing: run.counters.skipped_missing,
        failed: run.counters.failed,
        cancelled,
    }
}

/// The report and the summary of a run whose folder could not be read.
pub fn discovery_failed(source_dir: &FilePath, error: &str) -> (end: (
    AutonomousNumberingProgress,
    AutonomousNumberingSummary,
))
    ensures
        ({
            let progress = end.0;
            &&& progress.completed == 0
            &&& progress.total == 0
            &&& progress.assigned == 0
            &&& progress.needs_review == 0
            &&& progress.already_completed == 0
            &&& progress.skipped_missing == 0
            &&& progress.failed == 1
            &&& progress.active_files@.len() == 0
            &&& progress.last_message@ == error@
            &&& progress.last_result matches Some(item) && {
                &&& item.file_name@ == paths::shown(source_dir@)
                &&& item.status == AutonomousNumberingItemStatus::Failed
                &&& item.number is None
                &&& item.confidence is None
                &&& item.destination is None
                &&& text::optional_text(item.error) == Some(error@)
            }
        }),
        end.1 == (AutonomousNumberingSummary {
            discovered: 0,
            processed: 0,
            assigned: 0,
            needs_review: 0,
            already_completed: 0,
            skipped_missing: 0,
            failed: 1,
            cancelled: false,
        }),
{
    let item = AutonomousNumberingItemResult {
        file_name: source_dir.display_text(),
        status: AutonomousNumberingItemStatus::Failed,
        number: None,
        confidence: None,
        destination: None,
        error: Some(text::owned(error)),
    };
    (
        AutonomousNumberingProgress {
            completed: 0,
            total: 0,
            assigned: 0,
            needs_review: 0,
            already_completed: 0,
            skipped_missing: 0,
            failed: 1,
            active_files: Vec::new(),
            last_message: text::owned(error),
            last_result: Some(item),
        },
        AutonomousNumberingSummary {
            discovered: 0,
            processed: 0,
            assigned: 0,
            needs_review: 0,
            already_completed: 0,
            skipped_missing: 0,
            failed: 1,
            cancelled: false,
        },
    )
}

/// What to do next with a file that is moved into a folder.
#[derive(Debug)]
pub enum MoveStep {
    /// Copy it to this path, which must not exist yet; so many names were taken before.
    Copy { destination: FilePath, attempt: usize },
    /// Remove the source: the copy is complete.
    Remove { destination: FilePath },
    /// It is at this path.
    Moved(FilePath),
    /// It cannot be moved, for this reason.
    Impossible(String),
    /// The last step failed.
    Failed,
}

/// What came of a step of a move.
#[derive(Clone, Copy, Debug, PartialEq, Eq, Structural)]
pub enum MoveEvent {
    /// The copy is complete.
    Copied,
    /// Another file has the path.
    NameTaken,
    /// There is no copy.
    CopyFailed,
    /// The source is removed.
    Removed,
    /// There was no source left to remove.
    SourceGone,
    /// The source is still there.
    RemoveFailed,
}

/// The step for a file of which so many names were taken.
pub open spec fn is_attempt(
    source: Seq<u8>,
    folder: Seq<u8>,
    attempt: nat,
    step: MoveStep,
) -> bool {
    match paths::file_name(source) {
        None => step matches MoveStep::Impossible(why) && why@ == "source path has no filename: "@
            + paths::shown(source),
        Some(name) => if attempt >= sorter::MAX_ATTEMPTS {
            step matches MoveStep::Impossible(why) && why@ == "no free destination filename for "@
                + paths::shown(source)
        } else {
            step matches MoveStep::Copy { destination, attempt: n } && n == attempt
                && destination@ == sorter::candidate_path(folder, name, attempt)
        },
    }
}

/// The step that follows a step of a move and what came of it: a name that is taken leads
/// to the next one, and a copy that is complete to the removal of the source. A source
/// that is gone by then counts as removed. There is none where the event does not answer
/// the step.
pub open spec fn is_move_step(
    source: Seq<u8>,
    folder: Seq<u8>,
    step: MoveStep,
    event: MoveEvent,
    next: Option<MoveStep>,
) -> bool {
    match (step, event) {
        (MoveStep::Copy { destination, attempt }, MoveEvent::Copied) => next matches Some(
            MoveStep::Remove { destination: d },
        ) && d == destination,
        (MoveStep::Copy { destination, attempt }, MoveEvent::NameTaken) => next matches Some(n)
            && is_attempt(source, folder, attempt as nat + 1, n),
        (MoveStep::Copy { destination, attempt }, MoveEvent::CopyFailed) => next
            == Some(MoveStep::Failed),
        (MoveStep::Remove { destination }, MoveEvent::Removed)
        | (MoveStep::Remove { destination }, MoveEvent::SourceGone) => next
            == Some(MoveStep::Moved(destination)),
        (MoveStep::Remove { destination }, MoveEvent::RemoveFailed) => next
            == Some(MoveStep::Failed),
        _ => next is None,
    }
}

fn attempt_move(source: &FilePath, folder: &FilePath, attempt: usize) -> (step: MoveStep)
    ensures
        is_attempt(source@, folder@, attempt as nat, step),
{
    let name = match source.file_name() {
        Some(name) => name,
        None => {
            let mut why = text::owned("source path has no filename: ");
            let shown = source.display_text();
            text::push_text(&mut why, shown.as_str());
            return MoveStep::Impossible(why);
        },
    };
    match sorter::next_candidate(folder, name.as_slice(), attempt) {
        Some(destination) => MoveStep::Copy { destination, attempt },
        None => {
            let mut why = text::owned("no free destination filename for ");
            let shown = source.display_text();
            text::push_text(&mut why, shown.as_str());
            MoveStep::Impossible(why)
        },
    }
}

/// Starts to move a file into a folder.
pub fn move_into_folder(source: &FilePath, folder: &FilePath) -> (step: MoveStep)
    ensures
        is_attempt(source@, folder@, 0, step),
{
    attempt_move(source, folder, 0)
}

/// Goes on with the move of a file into a folder.
pub fn after_move_step(source: &FilePath, folder: &FilePath, step: MoveStep, event: MoveEvent) -> (
    next: Option<MoveStep>)
    ensures
        is_move_step(source@, folder@, step, event, next),
{
    match (step, event) {
        (MoveStep::Copy { destination, attempt }, MoveEvent::Copied) => Some(
            MoveStep::Remove { destination },
        ),
        (MoveStep::Copy { destination, attempt }, MoveEvent::NameTaken) => {
            if attempt >= sorter::MAX_ATTEMPTS {
                return Some(attempt_move(source, folder, attempt));
            }
            Some(attempt_move(source, folder, attempt + 1))
        },
        (MoveStep::Copy { destination, attempt }, MoveEvent::CopyFailed) => Some(MoveStep::Failed),
        (MoveStep::Remove { destination }, MoveEvent::Removed) => Some(
            MoveStep::Moved(destination),
        ),
        (MoveStep::Remove { destination }, MoveEvent::SourceGone) => Some(
            MoveStep::Moved(destination),
        ),
        (MoveStep::Remove { destination }, MoveEvent::RemoveFailed) => Some(MoveStep::Failed),
        _ => None,
    }
}

/// Each step of a move follows the one before it, from the first one on.
pub open spec fn is_move(
    source: Seq<u8>,
    folder: Seq<u8>,
    steps: Seq<MoveStep>,
    events: Seq<MoveEvent>,
) -> bool {
    &&& steps.len() == events.len() + 1
    &&& is_attempt(source, folder, 0, steps[0])
    &&& forall|i: int|
        #![trigger events[i]]
        0 <= i < events.len() ==> is_move_step(
            source,
            folder,
            steps[i],
            events[i],
            Some(steps[i + 1]),
        )
}

/// What happens in a folder in which the paths `taken` belong to other files: a copy is
/// made only at a path that is none of them, and a name is found taken only where its
/// path is one of them.
pub open spec fn happens_among(
    steps: Seq<MoveStep>,
    events: Seq<MoveEvent>,
    taken: Set<Seq<u8>>,
) -> bool {
    forall|i: int|
        #![trigger events[i]]
        0 <= i < events.len() ==> (steps[i] matches MoveStep::Copy { destination, attempt } ==> {
            &&& events[i] == MoveEvent::Copied ==> !taken.contains(destination@)
            &&& events[i] == MoveEvent::NameTaken ==> taken.contains(destination@)
        })
}

/// The first `n` names that are tried for a file belong to other files.
pub open spec fn first_are_taken(
    folder: Seq<u8>,
    name: Seq<u8>,
    taken: Set<Seq<u8>>,
    n: nat,
) -> bool {
    forall|i: nat|
        i < n ==> taken.contains(#[trigger] sorter::candidate_path(folder, name, i))
}

/// A path is the first free one that is tried for a file.
pub open spec fn is_least_free(
    source: Seq<u8>,
    folder: Seq<u8>,
    taken: Set<Seq<u8>>,
    path: Seq<u8>,
) -> bool {
    paths::file_name(source) matches Some(name) && !taken.contains(path) && exists|n: nat|
        n < sorter::MAX_ATTEMPTS && path == #[trigger] sorter::candidate_path(folder, name, n)
            && first_are_taken(folder, name, taken, n)
}

/// A file that is moved goes to the first free name: no other file is overwritten, no name
/// is passed over but those of other files, and the names run out only where all are
/// taken. Its source is removed only once the copy is complete.
pub proof fn moves_go_to_the_first_free_name(
    source: Seq<u8>,
    folder: Seq<u8>,
    steps: Seq<MoveStep>,
    events: Seq<MoveEvent>,
    taken: Set<Seq<u8>>,
    n: int,
)
    requires
        is_move(source, folder, steps, events),
        happens_among(steps, events, taken),
        0 <= n < steps.len(),
    ensures
        match steps[n] {
            MoveStep::Copy { destination, attempt } => paths::file_name(source) matches Some(name)
                && attempt < sorter::MAX_ATTEMPTS && destination@ == sorter::candidate_path(
                folder,
                name,
                attempt as nat,
            ) && first_are_taken(folder, name, taken, attempt as nat),
            MoveStep::Remove { destination } => is_least_free(
                source,
                folder,
                taken,
                destination@,
            ) && n > 0 && events[n - 1] == MoveEvent::Copied,
            MoveStep::Moved(destination) => is_least_free(source, folder, taken, destination@) && n
                > 1 && events[n - 2] == MoveEvent::Copied && (events[n - 1] == MoveEvent::Removed
                || events[n - 1] == MoveEvent::SourceGone),
            MoveStep::Impossible(_) => paths::file_name(source) matches Some(name)
                ==> first_are_taken(folder, name, taken, sorter::MAX_ATTEMPTS as nat),
            MoveStep::Failed => n > 0 && (events[n - 1] == MoveEvent::CopyFailed || events[n - 1]
                == MoveEvent::RemoveFailed),
        },
    decreases n,
{
    if n > 0 {
        moves_go_to_the_first_free_name(source, folder, steps, events, taken, n - 1);
        assert(is_move_step(source, folder, steps[n - 1], events[n - 1], Some(steps[n])));
        if let MoveStep::Copy { destination, attempt } = steps[n - 1] {
            let name = paths::file_name(source)->0;
            assert(destination@ == sorter::candidate_path(folder, name, attempt as nat));
            if events[n - 1] == MoveEvent::NameTaken {
                assert(first_are_taken(folder, name, taken, attempt as nat + 1));
            }
        }
    }
}

/// A file on its way into a folder: what it is moved for.
#[derive(Debug)]
pub struct PendingMove {
    pub assigned: bool,
    pub number: Option<String>,
    pub confidence: Option<Score>,
}

/// What to do next with an image.
#[derive(Debug)]
pub enum ItemStep {
    /// See whether the file is still there.
    CheckFile,
    /// Read the number.
    Recognize,
    /// Move the file into a folder.
    Move { folder: FilePath, pending: PendingMove },
    /// Nothing is left to do. A file that was moved is done for the session too.
    Finished { result: AutonomousNumberingItemResult, completed: bool },
}

/// What came of a step.
#[derive(Debug)]
pub enum ItemEvent {
    FileChecked { exists: bool },
    Recognized { ocr: Option<OcrResult> },
    Moved { destination: FilePath },
    MoveNotFound,
    MoveFailed { error: String },
}

/// The rules for the images of a run: where they are, and how sure a number has
/// to be.
#[derive(Debug)]
pub struct ItemRules {
    pub source_dir: FilePath,
    pub min_confidence: Score,
}

/// A result without number or destination.
pub open spec fn is_plain_result(
    result: AutonomousNumberingItemResult,
    path: Seq<u8>,
    status: AutonomousNumberingItemStatus,
) -> bool {
    &&& result.file_name@ == shown_name(path)
    &&& result.status == status
    &&& result.number is None
    &&& result.confidence is None
    &&& result.destination is None
    &&& result.error is None
}

/// A number that is sure enough: there are digits, and the confidence is not
/// below the limit.
pub open spec fn is_sure(ocr: OcrResult, min_confidence: Score) -> bool {
    text::digits_of(ocr.text@).len() > 0 && !ocr.confidence.lt(min_confidence)
}

/// The move that follows a reading: into the folder of the number where it is
/// sure enough, into the one for review otherwise.
pub open spec fn is_move_for(rules: ItemRules, ocr: Option<OcrResult>, step: ItemStep) -> bool {
    step matches ItemStep::Move { folder, pending } && match ocr {
        None => {
            &&& folder@ == paths::joined(rules.source_dir@, vstd::utf8::encode_utf8("_review"@))
            &&& !pending.assigned
            &&& pending.number is None
            &&& pending.confidence is None
        },
        Some(read) => {
            let digits = text::digits_of(read.text@);
            &&& pending.assigned == is_sure(read, rules.min_confidence)
            &&& folder@ == paths::joined(
                rules.source_dir@,
                vstd::utf8::encode_utf8(
                    if is_sure(read, rules.min_confidence) {
                        digits
                    } else {
                        "_review"@
                    },
                ),
            )
            &&& text::optional_text(pending.number) == (if digits.len() > 0 {
                Some(digits)
            } else {
                None
            })
            &&& pending.confidence == Some(read.confidence)
        },
    }
}

/// The result of a move.
pub open spec fn is_moved_result(
    result: AutonomousNumberingItemResult,
    path: Seq<u8>,
    pending: PendingMove,
    status: AutonomousNumberingItemStatus,
) -> bool {
    &&& result.file_name@ == shown_name(path)
    &&& result.status == status
    &&& text::optional_text(result.number) == text::optional_text(pending.number)
    &&& result.confidence == pending.confidence
}

/// The step that follows a step and what came of it. Where the two do not belong
/// together, none does.
pub open spec fn is_item_step(
    rules: ItemRules,
    path: Seq<u8>,
    step: ItemStep,
    event: ItemEvent,
    next: Option<ItemStep>,
) -> bool {
    match (step, event) {
        (ItemStep::CheckFile, ItemEvent::FileChecked { exists }) => if exists {
            next matches Some(ItemStep::Recognize)
        } else {
            next matches Some(ItemStep::Finished { result, completed }) && !completed
                && is_plain_result(result, path, AutonomousNumberingItemStatus::SkippedMissing)
        },
        (ItemStep::Recognize, ItemEvent::Recognized { ocr }) => next matches Some(n)
            && is_move_for(rules, ocr, n),
        (
            ItemStep::Move { folder, pending },
            ItemEvent::Moved { destination },
        ) => next matches Some(ItemStep::Finished { result, completed }) && completed
            && is_moved_result(
            result,
            path,
            pending,
            if pending.assigned {
                AutonomousNumberingItemStatus::Assigned
            } else {
                AutonomousNumberingItemStatus::NeedsReview
            },
        ) && paths::optional_view(result.destination) == Some(destination@) && result.error is None,
        (
            ItemStep::Move { folder, pending },
            ItemEvent::MoveNotFound,
        ) => next matches Some(ItemStep::Finished { result, completed }) && !completed
            && is_moved_result(
            result,
            path,
            pending,
            AutonomousNumberingItemStatus::SkippedMissing,
        ) && result.destination is None && result.error is None,
        (
            ItemStep::Move { folder, pending },
            ItemEvent::MoveFailed { error },
        ) => next matches Some(ItemStep::Finished { result, completed }) && !completed
            && is_moved_result(result, path, pending, AutonomousNumberingItemStatus::Failed)
            && result.destination is None && text::optional_text(result.error) == Some(error@),
        _ => next is None,
    }
}

impl ItemRules {
    /// The first step: nothing is done to an image that the session has as done.
    pub fn start(&self, path: &FilePath, already_completed: bool) -> (step: ItemStep)
        ensures
            already_completed ==> (step matches ItemStep::Finished { result, completed }
                && !completed && is_plain_result(
                result,
                path@,
                AutonomousNumberingItemStatus::AlreadyCompleted,
            )),
            !already_completed ==> step is CheckFile,
    {
        if already_completed {
            ItemStep::Finished {
                result: plain_result(path, AutonomousNumberingItemStatus::AlreadyCompleted),
                completed: false,
            }
        } else {
            ItemStep::CheckFile
        }
    }

    /// The step that follows a step and what came of it.
    pub fn process_one(&self, path: &FilePath, step: ItemStep, event: ItemEvent) -> (next: Option<
        ItemStep,
    >)
        ensures
            is_item_step(*self, path@, step, event, next),
    {
        match (step, event) {
            (ItemStep::CheckFile, ItemEvent::FileChecked { exists }) => if exists {
                Some(ItemStep::Recognize)
            } else {
                Some(
                    ItemStep::Finished {
                        result: plain_result(path, AutonomousNumberingItemStatus::SkippedMissing),
                        completed: false,
                    },
                )
            },
            (ItemStep::Recognize, ItemEvent::Recognized { ocr }) => Some(self.recognized(ocr)),
            (ItemStep::Move { folder, pending }, ItemEvent::Moved { destination }) => {
                let status = if pending.assigned {
                    AutonomousNumberingItemStatus::Assigned
                } else {
                    AutonomousNumberingItemStatus::NeedsReview
                };
                Some(
                    ItemStep::Finished {
                        result: AutonomousNumberingItemResult {
                            file_name: path_file_name(path),
                            status,
                            number: pending.number,
                            confidence: pending.confidence,
                            destination: Some(destination),
                            error: None,
                        },
                        completed: true,
                    },
                )
            },
            (ItemStep::Move { folder, pending }, ItemEvent::MoveNotFound) => Some(
                ItemStep::Finished {
                    result: AutonomousNumberingItemResult {
                        file_name: path_file_name(path),
                        status: AutonomousNumberingItemStatus::SkippedMissing,
                        number: pending.number,
                        confidence: pending.confidence,
                        destination: None,
                        error: None,
                    },
                    completed: false,
                },
            ),
            (ItemStep::Move { folder, pending }, ItemEvent::MoveFailed { error }) => Some(
                ItemStep::Finished {
                    result: AutonomousNumberingItemResult {
                        file_name: path_file_name(path),
                        status: AutonomousNumberingItemStatus::Failed,
                        number: pending.number,
                        confidence: pending.confidence,
                        destination: None,
                        error: Some(error),
                    },
                    completed: false,
                },
            ),
            _ => None,
        }
    }

    fn recognized(&self, ocr: Option<OcrResult>) -> (step: ItemStep)
        ensures
            is_move_for(*self, ocr, step),
    {
        let read = match ocr {
            Some(read) => read,
            None => {
                return ItemStep::Move {
                    folder: self.source_dir.join_text("_review"),
                    pending: PendingMove { assigned: false, number: None, confidence: None },
                };
            },
        };
        let digits = text::digits_only(read.text.as_str());
        let empty = digits.as_str().is_empty();
        if empty || read.confidence.is_below(self.min_confidence) {
            let number = if empty {
                None
            } else {
                Some(digits)
            };
            return ItemStep::Move {
                folder: self.source_dir.join_text("_review"),
                pending: PendingMove { assigned: false, number, confidence: Some(read.confidence) },
            };
        }
        ItemStep::Move {
            folder: self.source_dir.join_text(digits.as_str()),
            pending: PendingMove {
                assigned: true,
                number: Some(digits),
                confidence: Some(read.confidence),
            },
        }
    }
}

fn plain_result(path: &FilePath, status: AutonomousNumberingItemStatus) -> (result:
    AutonomousNumberingItemResult)
    ensures
        is_plain_result(result, path@, status),
{
    AutonomousNumberingItemResult {
        file_name: path_file_name(path),
        status,
        number: None,
        confidence: None,
        destination: None,
        error: None,
    }
}

/// A file is done for the session just when it was moved: then it was assigned
/// or left for review, and its destination is known. Otherwise it stays where it
/// is, and its result names no destination.
pub proof fn completed_just_when_moved(
    rules: ItemRules,
    path: Seq<u8>,
    step: ItemStep,
    event: ItemEvent,
    next: Option<ItemStep>,
)
    requires
        is_item_step(rules, path, step, event, next),
        next matches Some(ItemStep::Finished { .. }),
    ensures
        ({
            let result = next->0->result;
            let completed = next->0->completed;
            &&& completed <==> event is Moved
            &&& completed <==> result.destination is Some
            &&& completed <==> (result.status == AutonomousNumberingItemStatus::Assigned
                || result.status == AutonomousNumberingItemStatus::NeedsReview)
        }),
{
}

/// A number is assigned only where it is sure: in a run of the steps from a
/// reading to a finished move, the outcome is `Assigned` only with digits and a
/// confidence that is not below the limit, and the file went into the folder of
/// those digits. A folder of digits is never the one for review.
pub proof fn assigned_only_when_sure(
    rules: ItemRules,
    path: Seq<u8>,
    ocr: Option<OcrResult>,
    chosen: ItemStep,
    event: ItemEvent,
    next: Option<ItemStep>,
)
    requires
        is_item_step(
            rules,
            path,
            ItemStep::Recognize,
            ItemEvent::Recognized { ocr },
            Some(chosen),
        ),
        is_item_step(rules, path, chosen, event, next),
        next matches Some(ItemStep::Finished { result, .. }) && result.status
            == AutonomousNumberingItemStatus::Assigned,
    ensures
        ocr is Some,
        is_sure(ocr->0, rules.min_confidence),
        text::optional_text(next->0->result.number) == Some(text::digits_of(ocr->0.text@)),
        text::digits_of(ocr->0.text@) != "_review"@,
        chosen->folder@ == paths::joined(
            rules.source_dir@,
            vstd::utf8::encode_utf8(text::digits_of(ocr->0.text@)),
        ),
{
    text::digits_of_digits(ocr->0.text@);
    reveal_strlit("_review");
    let digits = text::digits_of(ocr->0.text@);
    assert(text::is_digit(digits[0]));
}

/// What is counted adds up: every outcome that is counted adds one to the images
/// that are done and one to exactly one of the outcomes.
pub proof fn outcomes_add_up(counters: Counters, status: AutonomousNumberingItemStatus)
    requires
        counters.sum() == counters.completed,
        counters.completed < usize::MAX,
    ensures
        counters.after(status).sum() == counters.sum() + 1,
        counters.after(status).completed == counters.completed + 1,
        counters.after(status).sum() == counters.after(status).completed,
{
}

/// How many items came to a status.
pub open spec fn with_status(
    items: Seq<AutonomousNumberingItemResult>,
    status: AutonomousNumberingItemStatus,
) -> nat
    decreases items.len(),
{
    if items.len() == 0 {
        0
    } else {
        with_status(items.drop_last(), status) + if items.last().status == status {
            1nat
        } else {
            0nat
        }
    }
}

/// A summary counts every item once, under what became of it. `runs` are the states of a
/// run: at first nothing is counted, and each item is then taken note of once.
pub proof fn summaries_count_every_item(
    runs: Seq<AutonomousRun>,
    items: Seq<AutonomousNumberingItemResult>,
    cancelled: bool,
)
    requires
        runs.len() == items.len() + 1,
        runs[0].counters == (Counters {
            completed: 0,
            assigned: 0,
            needs_review: 0,
            already_completed: 0,
            skipped_missing: 0,
            failed: 0,
        }),
        items.len() <= runs[0].paths@.len(),
        forall|i: int|
            #![trigger items[i]]
            0 <= i < items.len() ==> runs[i + 1].paths == runs[i].paths && runs[i + 1].counters
                == runs[i].counters.after(items[i].status),
    ensures
        ({
            let summary = summary_of(runs.last(), cancelled);
            &&& summary.discovered == runs[0].paths@.len()
            &&& summary.processed == items.len()
            &&& summary.assigned == with_status(items, AutonomousNumberingItemStatus::Assigned)
            &&& summary.needs_review == with_status(
                items,
                AutonomousNumberingItemStatus::NeedsReview,
            )
            &&& summary.already_completed == with_status(
                items,
                AutonomousNumberingItemStatus::AlreadyCompleted,
            )
            &&& summary.skipped_missing == with_status(
                items,
                AutonomousNumberingItemStatus::SkippedMissing,
            )
            &&& summary.failed == with_status(items, AutonomousNumberingItemStatus::Failed)
            &&& summary.cancelled == cancelled
        }),
        runs.last().paths == runs[0].paths,
        runs.last().counters.completed == items.len(),
        runs.last().counters.sum() == items.len(),
    decreases items.len(),
{
    assert(runs[0].paths@.len() == runs[0].paths.len());
    if items.len() > 0 {
        let last = items.len() - 1;
        let earlier = items.drop_last();
        assert forall|i: int| #![trigger earlier[i]] 0 <= i < earlier.len() implies (
        runs.drop_last()[i + 1].paths == runs.drop_last()[i].paths && runs.drop_last()[i
            + 1].counters == runs.drop_last()[i].counters.after(earlier[i].status)) by {
            assert(earlier[i] == items[i]);
        }
        summaries_count_every_item(runs.drop_last(), earlier, cancelled);
        assert(items[last] == items.last());
        assert(runs.drop_last().last() == runs[last]);
        assert(runs[last + 1].counters == runs[last].counters.after(items[last].status));
        outcomes_add_up(runs[last].counters, items[last].status);
    }
}

/// A run goes through a folder from its end: of two images that it gives out, the one
/// that is given out first stands later in the folder.
pub proof fn last_images_come_first(found: Seq<Seq<u8>>, run: AutonomousRun, i: int, j: int)
    requires
        paths::paths_view(run.paths@) == found.reverse(),
        0 <= i < j < found.len(),
    ensures
        run.paths@[i]@ == found[found.len() - 1 - i],
        run.paths@[j]@ == found[found.len() - 1 - j],
        paths::paths_sorted(found) ==> !paths::path_less(run.paths@[i]@, run.paths@[j]@),
{
    assert(run.paths@.len() == paths::paths_view(run.paths@).len());
    assert(run.paths@.len() == found.len());
    assert(paths::paths_view(run.paths@)[i] == run.paths@[i]@);
    assert(paths::paths_view(run.paths@)[j] == run.paths@[j]@);
}

/// Where a reading leads is decided by its confidence and its digits alone. The file goes
/// into the folder of the digits, as assigned, just where there are some and the confidence
/// is not a number below the limit; everything else goes into the folder for review, with
/// the digits where there are any. `done` is the result once the file was moved.
pub proof fn sure_readings_are_assigned(
    rules: ItemRules,
    path: Seq<u8>,
    read: OcrResult,
    chosen: ItemStep,
    destination: FilePath,
    done: ItemStep,
)
    requires
        is_item_step(
            rules,
            path,
            ItemStep::Recognize,
            ItemEvent::Recognized { ocr: Some(read) },
            Some(chosen),
        ),
        is_item_step(rules, path, chosen, ItemEvent::Moved { destination }, Some(done)),
    ensures
        ({
            let digits = text::digits_of(read.text@);
            let sure = digits.len() > 0 && (read.confidence.nan() || rules.min_confidence.nan()
                || read.confidence.value() >= rules.min_confidence.value());
            &&& chosen->pending.assigned <==> sure
            &&& done->result.status == AutonomousNumberingItemStatus::Assigned <==> sure
            &&& done->result.status == AutonomousNumberingItemStatus::NeedsReview <==> !sure
            &&& sure ==> chosen->folder@ == paths::joined(
                rules.source_dir@,
                vstd::utf8::encode_utf8(digits),
            )
            &&& !sure ==> chosen->folder@ == paths::joined(
                rules.source_dir@,
                vstd::utf8::encode_utf8("_review"@),
            )
            &&& digits.len() > 0 ==> text::optional_text(done->result.number) == Some(digits)
            &&& digits.len() == 0 ==> done->result.number is None
            &&& done->result.confidence == Some(read.confidence)
            &&& done->completed
            &&& paths::optional_view(done->result.destination) == Some(destination@)
            &&& done->result.file_name@ == shown_name(path)
            &&& done->result.error is None
        }),
{
}

/// Of two readings with the same digits, the surer one is assigned wherever the other one
/// is; and with a lower limit a reading is assigned wherever it is with a higher one.
pub proof fn surer_readings_are_not_refused(
    rules: ItemRules,
    other: ItemRules,
    read: OcrResult,
    surer: OcrResult,
    step: ItemStep,
    next: ItemStep,
)
    requires
        is_move_for(rules, Some(read), step),
        is_move_for(other, Some(surer), next),
        text::digits_of(surer.text@).len() > 0,
        !read.confidence.nan() && !surer.confidence.nan(),
        !rules.min_confidence.nan() && !other.min_confidence.nan(),
        read.confidence.value() <= surer.confidence.value(),
        other.min_confidence.value() <= rules.min_confidence.value(),
        step->pending.assigned,
    ensures
        next->pending.assigned,
{
}

/// Where nothing is read, the file is left for review without a number.
pub proof fn unread_images_are_reviewed(
    rules: ItemRules,
    path: Seq<u8>,
    chosen: ItemStep,
    destination: FilePath,
    done: ItemStep,
)
    requires
        is_item_step(
            rules,
            path,
            ItemStep::Recognize,
            ItemEvent::Recognized { ocr: None },
            Some(chosen),
        ),
        is_item_step(rules, path, chosen, ItemEvent::Moved { destination }, Some(done)),
    ensures
        chosen->folder@ == paths::joined(rules.source_dir@, vstd::utf8::encode_utf8("_review"@)),
        done->result.status == AutonomousNumberingItemStatus::NeedsReview,
        done->result.number is None,
        done->result.confidence is None,
{
}

/// The images of a folder are those among its first entries and then those among the rest.
/// A file is one just when its name says so; what stands in folders below is none.
pub proof fn only_images_in_the_folder_itself_are_taken(
    a: Seq<DirEntry>,
    b: Seq<DirEntry>,
    path: FilePath,
    below: Vec<DirEntry>,
)
    ensures
        images_of(a + b) == images_of(a) + images_of(b),
        image_loader::is_image(path@) ==> images_of(seq![DirEntry::File(path)]) == seq![path@],
        !image_loader::is_image(path@) ==> images_of(seq![DirEntry::File(path)]).len() == 0,
        images_of(seq![DirEntry::Dir(path, below)]).len() == 0,
        images_of(seq![DirEntry::Other(path)]).len() == 0,
    decreases b.len(),
{
    reveal_with_fuel(images_of, 2);
    let none = Seq::<DirEntry>::empty();
    assert(seq![DirEntry::File(path)].drop_last() =~= none);
    assert(seq![DirEntry::Dir(path, below)].drop_last() =~= none);
    assert(seq![DirEntry::Other(path)].drop_last() =~= none);
    assert(Seq::<Seq<u8>>::empty().push(path@) =~= seq![path@]);
    if b.len() == 0 {
        assert(a + b =~= a);
        assert(images_of(a) + images_of(b) =~= images_of(a));
    } else {
        only_images_in_the_folder_itself_are_taken(a, b.drop_last(), path, below);
        assert((a + b).drop_last() =~= a + b.drop_last());
        assert((a + b).last() == b.last());
        assert(images_of(a + b) =~= images_of(a) + images_of(b));
    }
}

/// A run has as many workers as it can: never more than four, than there are images, than the
/// machine runs at once or than are wanted, one being wanted at least; and always as many as
/// one of these.
pub proof fn runs_have_as_many_workers_as_they_can(
    max_workers: usize,
    available: usize,
    total: usize,
)
    ensures
        ({
            let count = workers_for(max_workers, available, total);
            &&& count <= 4
            &&& count <= total
            &&& count <= available
            &&& count <= max_workers || count == 1
            &&& count == 4 || count == total || count == available || count == max_workers || (
            max_workers == 0 && count == 1)
        }),
{
}

/// An outcome adds one to its own count and to no other one.
pub proof fn outcomes_are_counted_by_status(
    counters: Counters,
    status: AutonomousNumberingItemStatus,
)
    requires
        counters.sum() == counters.completed,
        counters.completed < usize::MAX,
    ensures
        ({
            let after = counters.after(status);
            &&& after.completed - counters.completed == 1
            &&& after.assigned - counters.assigned == (if status
                == AutonomousNumberingItemStatus::Assigned {
                1int
            } else {
                0
            })
            &&& after.needs_review - counters.needs_review == (if status
                == AutonomousNumberingItemStatus::NeedsReview {
                1int
            } else {
                0
            })
            &&& after.already_completed - counters.already_completed == (if status
                == AutonomousNumberingItemStatus::AlreadyCompleted {
                1int
            } else {
                0
            })
            &&& after.skipped_missing - counters.skipped_missing == (if status
                == AutonomousNumberingItemStatus::SkippedMissing {
                1int
            } else {
                0
            })
            &&& after.failed - counters.failed == (if status
                == AutonomousNumberingItemStatus::Failed {
                1int
            } else {
                0
            })
        }),
{
}

/// The names of the slots are those of the first ones and then those of the rest; a slot
/// that is free has none.
pub proof fn slots_are_listed_in_order(
    a: Seq<Option<String>>,
    b: Seq<Option<String>>,
    name: String,
)
    ensures
        used_slots(a + b) == used_slots(a) + used_slots(b),
        used_slots(seq![Some(name)]) == seq![name@],
        used_slots(seq![None]).len() == 0,
    decreases b.len(),
{
    reveal_with_fuel(used_slots, 2);
    let none = Seq::<Option<String>>::empty();
    assert(seq![Some(name)].drop_last() =~= none);
    assert(seq![None::<String>].drop_last() =~= none);
    assert(Seq::<Seq<char>>::empty().push(name@) =~= seq![name@]);
    if b.len() == 0 {
        assert(a + b =~= a);
        assert(used_slots(a) + used_slots(b) =~= used_slots(a));
    } else {
        slots_are_listed_in_order(a, b.drop_last(), name);
        assert((a + b).drop_last() =~= a + b.drop_last());
        assert((a + b).last() == b.last());
        assert(used_slots(a + b) =~= used_slots(a) + used_slots(b));
    }
}

/// A report carries the counts of its run, each under its own name, and the names of the
/// files that are worked on.
pub proof fn reports_carry_the_counts(
    progress: AutonomousNumberingProgress,
    run: AutonomousRun,
    message: Seq<char>,
    last_result: Option<AutonomousNumberingItemResult>,
)
    requires
        is_report(progress, run, message, last_result),
        run.counters.sum() == run.counters.completed,
    ensures
        progress.completed == run.counters.completed,
        progress.total == run.paths@.len(),
        progress.assigned == run.counters.assigned,
        progress.needs_review == run.counters.needs_review,
        progress.already_completed == run.counters.already_completed,
        progress.skipped_missing == run.counters.skipped_missing,
        progress.failed == run.counters.failed,
        progress.completed == progress.assigned + progress.needs_review
            + progress.already_completed + progress.skipped_missing + progress.failed,
        text::texts(progress.active_files@) == used_slots(run.active@),
        progress.last_message@ == message,
        progress.last_result == last_result,
{
}

/// What became of an image is told with its name: the number that it was assigned to, that
/// it is left for review, why it was skipped, or the error.
pub proof fn outcomes_are_told_with_the_name(item: AutonomousNumberingItemResult)
    ensures
        item.status == AutonomousNumberingItemStatus::Assigned ==> match item.number {
            Some(n) => message_for(item) == "Assigned "@ + item.file_name@ + " to "@ + n@,
            None => message_for(item) == "Assigned "@ + item.file_name@ + " to "@ + "?"@,
        },
        item.status == AutonomousNumberingItemStatus::NeedsReview ==> message_for(item) == "Left "@
            + item.file_name@ + " for review"@,
        item.status == AutonomousNumberingItemStatus::AlreadyCompleted ==> message_for(item)
            == "Skipped already-numbered file "@ + item.file_name@,
        item.status == AutonomousNumberingItemStatus::SkippedMissing ==> message_for(item)
            == "Skipped missing file "@ + item.file_name@,
        item.status == AutonomousNumberingItemStatus::Failed ==> match item.error {
            Some(e) => message_for(item) == "Failed "@ + item.file_name@ + ": "@ + e@,
            None => message_for(item) == "Failed "@ + item.file_name@ + ": "@ + "unknown error"@,
        },
{
}

/// An image is read just when its file is there. One whose file is gone, before it is read or
/// before it is moved, counts as skipped; one that cannot be moved has failed, with the error.
/// None of these is done for the session, and all bear the name of the file.
pub proof fn images_that_are_not_moved_are_not_done(
    rules: ItemRules,
    path: Seq<u8>,
    step: ItemStep,
    event: ItemEvent,
    next: Option<ItemStep>,
)
    requires
        is_item_step(rules, path, step, event, next),
    ensures
        step is CheckFile && (event matches ItemEvent::FileChecked { exists } && exists)
            ==> next matches Some(ItemStep::Recognize),
        step is CheckFile && (event matches ItemEvent::FileChecked { exists } && !exists) ==> (
        next matches Some(ItemStep::Finished { result, completed }) && !completed && result.status
            == AutonomousNumberingItemStatus::SkippedMissing && result.file_name@ == shown_name(path)
            && result.number is None && result.error is None),
        step is Move && event is MoveNotFound ==> (next matches Some(
            ItemStep::Finished { result, completed },
        ) && !completed && result.status == AutonomousNumberingItemStatus::SkippedMissing
            && result.file_name@ == shown_name(path) && result.error is None),
        step is Move ==> (event matches ItemEvent::MoveFailed { error } ==> (next matches Some(
            ItemStep::Finished { result, completed },
        ) && !completed && result.status == AutonomousNumberingItemStatus::Failed
            && result.file_name@ == shown_name(path) && (result.error matches Some(e) && e@
            == error@))),
        step is Recognize && event is Recognized ==> (next matches Some(n) && n is Move),
        step is Finished ==> next is None,
{
}

/// Ten thousand names are tried for a file that is moved, the first one its own. A path
/// without a file name cannot be moved at all.
pub proof fn moves_try_ten_thousand_names(
    source: Seq<u8>,
    folder: Seq<u8>,
    attempt: nat,
    step: MoveStep,
)
    requires
        is_attempt(source, folder, attempt, step),
    ensures
        step is Impossible <==> paths::file_name(source) is None || attempt >= 10_000,
        step matches MoveStep::Copy { destination, attempt: n } ==> n == attempt && (
        paths::file_name(source) matches Some(name) && destination@ == paths::joined(
            folder,
            paths::safe_name(name, attempt),
        )),
        step is Impossible || step is Copy,
        paths::file_name(source) is None ==> (step matches MoveStep::Impossible(why) && why@
            == "source path has no filename: "@ + paths::shown(source)),
        paths::file_name(source) is Some ==> (step matches MoveStep::Impossible(why) ==> why@
            == "no free destination filename for "@ + paths::shown(source)),
{
}

/// A copy that is complete is followed by the removal of the source, a name that is taken by
/// the next name, and a removal by the end, with the file where the copy was made. What fails
/// ends the move.
pub proof fn moves_copy_then_remove(
    source: Seq<u8>,
    folder: Seq<u8>,
    step: MoveStep,
    event: MoveEvent,
    next: Option<MoveStep>,
)
    requires
        is_move_step(source, folder, step, event, next),
    ensures
        step matches MoveStep::Copy { destination, attempt } ==> {
            &&& event == MoveEvent::Copied ==> (next matches Some(
                MoveStep::Remove { destination: d },
            ) && d@ == destination@)
            &&& event == MoveEvent::NameTaken ==> (next matches Some(n) && is_attempt(
                source,
                folder,
                attempt as nat + 1,
                n,
            ))
            &&& event == MoveEvent::CopyFailed ==> next == Some(MoveStep::Failed)
            &&& event == MoveEvent::Removed || event == MoveEvent::SourceGone || event
                == MoveEvent::RemoveFailed ==> next is None
        },
        step matches MoveStep::Remove { destination } ==> {
            &&& event == MoveEvent::Removed || event == MoveEvent::SourceGone ==> (
            next matches Some(MoveStep::Moved(d)) && d@ == destination@)
            &&& event == MoveEvent::RemoveFailed ==> next == Some(MoveStep::Failed)
            &&& event == MoveEvent::Copied || event == MoveEvent::NameTaken || event
                == MoveEvent::CopyFailed ==> next is None
        },
        step is Moved || step is Impossible || step is Failed ==> next is None,
{
}

/// A file is named as its path ends, or by a question mark where that is no text.
pub proof fn files_are_shown_by_name(path: Seq<u8>)
    ensures
        paths::file_name_text(path) matches Some(name) ==> shown_name(path) == name,
        paths::file_name_text(path) is None ==> shown_name(path) == seq!['?'],
{
    reveal_strlit("?");
    assert("?"@ =~= seq!['?']);
}

/// Results say the same just when they agree in all that they say.
pub proof fn equal_results_agree(
    a: AutonomousNumberingItemResult,
    b: AutonomousNumberingItemResult,
)
    ensures
        same_result(a, b) <==> a.file_name@ == b.file_name@ && a.status == b.status
            && text::optional_text(a.number) == text::optional_text(b.number) && a.confidence
            == b.confidence && paths::optional_view(a.destination) == paths::optional_view(
            b.destination,
        ) && text::optional_text(a.error) == text::optional_text(b.error),
{
}

/// Of a run that has not started, no image was given out, and nothing is counted.
pub proof fn nothing_is_counted_at_first(run: AutonomousRun)
    requires
        run.untouched(),
    ensures
        run.next_index == 0,
        run.counters.completed == 0,
        run.counters.assigned == 0,
        run.counters.needs_review == 0,
        run.counters.already_completed == 0,
        run.counters.skipped_missing == 0,
        run.counters.failed == 0,
        run.wf(),
{
}

}
