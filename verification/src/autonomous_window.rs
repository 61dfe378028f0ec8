//! What the window for autonomous numbering shows: how the run stands, the latest
//! results, and the images that are left for review.

use crate::autonomous;
use crate::autonomous::{
    AutonomousNumberingConfig, AutonomousNumberingItemResult, AutonomousNumberingItemStatus,
    AutonomousNumberingProgress, AutonomousNumberingSummary,
};
use crate::note;
use crate::note::Note;
use crate::numbering_session::{AutonomousProgressSnapshot, NumberingSessionChanges};
use crate::paths;
use crate::paths::FilePath;
use crate::score::Score;
use crate::text;
use vstd::prelude::*;

verus! {

/// The confidence from which on a number is taken as sure: 0.85.
pub const MIN_AUTO_CONFIDENCE_BITS: u32 = 0x3f59_999a;

/// How many workers may share a run.
pub const MAX_AUTO_WORKERS: usize = 8;

/// How many of the latest results are shown.
pub const MAX_RECENT_RESULTS: usize = 12;

/// How the run stands, and its latest results, the newest first.
#[derive(Debug)]
pub struct AutonomousUiProgress {
    pub completed: usize,
    pub total: usize,
    pub assigned: usize,
    pub needs_review: usize,
    pub already_completed: usize,
    pub skipped_missing: usize,
    pub failed: usize,
    pub active_files: Vec<String>,
    pub last_message: String,
    pub recent_results: Vec<AutonomousNumberingItemResult>,
    pub review_results: Vec<AutonomousNumberingItemResult>,
}

/// Nothing has been done, and only the message says so.
pub open spec fn is_fresh(progress: AutonomousUiProgress, message: Seq<char>) -> bool {
    &&& progress.completed == 0
    &&& progress.total == 0
    &&& progress.assigned == 0
    &&& progress.needs_review == 0
    &&& progress.already_completed == 0
    &&& progress.skipped_missing == 0
    &&& progress.failed == 0
    &&& progress.active_files@.len() == 0
    &&& progress.last_message@ == message
    &&& progress.recent_results@.len() == 0
    &&& progress.review_results@.len() == 0
}

/// The first results of a list, as many as are shown.
pub open spec fn latest(results: Seq<AutonomousNumberingItemResult>) -> Seq<
    AutonomousNumberingItemResult,
> {
    if results.len() > MAX_RECENT_RESULTS {
        results.take(MAX_RECENT_RESULTS as int)
    } else {
        results
    }
}

/// Results that belong to the images left for review: those that have a place to
/// be looked at.
pub open spec fn is_for_review(result: AutonomousNumberingItemResult) -> bool {
    result.status == AutonomousNumberingItemStatus::NeedsReview && result.destination is Some
}

impl AutonomousUiProgress {
    /// Nothing done yet.
    pub fn fresh(message: &str) -> (progress: AutonomousUiProgress)
        ensures
            is_fresh(progress, message@),
    {
        AutonomousUiProgress {
            completed: 0,
            total: 0,
            assigned: 0,
            needs_review: 0,
            already_completed: 0,
            skipped_missing: 0,
            failed: 0,
            active_files: Vec::new(),
            last_message: text::owned(message),
            recent_results: Vec::new(),
            review_results: Vec::new(),
        }
    }

    /// Takes over a report of the run. A new result goes in front of the others;
    /// one that is left for review is kept until the next run.
    pub fn merge_progress(&mut self, progress: AutonomousNumberingProgress)
        ensures
            final(self).completed == progress.completed,
            final(self).total == progress.total,
            final(self).assigned == progress.assigned,
            final(self).needs_review == progress.needs_review,
            final(self).already_completed == progress.already_completed,
            final(self).skipped_missing == progress.skipped_missing,
            final(self).failed == progress.failed,
            final(self).active_files == progress.active_files,
            final(self).last_message == progress.last_message,
            match progress.last_result {
                None => final(self).recent_results == old(self).recent_results && final(
                    self).review_results == old(self).review_results,
                Some(result) => {
                    &&& final(self).recent_results@ == latest(
                        old(self).recent_results@.insert(0, result),
                    )
                    &&& !is_for_review(result) ==> final(self).review_results == old(
                        self).review_results
                    &&& is_for_review(result) ==> {
                        &&& final(self).review_results@.len() == old(self).review_results@.len() + 1
                        &&& autonomous::same_result(final(self).review_results@[0], result)
                        &&& final(self).review_results@.drop_first() == old(self).review_results@
                    }
                },
            },
    {
        self.completed = progress.completed;
        self.total = progress.total;
        self.assigned = progress.assigned;
        self.needs_review = progress.needs_review;
        self.already_completed = progress.already_completed;
        self.skipped_missing = progress.skipped_missing;
        self.failed = progress.failed;
        self.active_files = progress.active_files;
        self.last_message = progress.last_message;
        match progress.last_result {
            None => {},
            Some(result) => {
                let review = match result.status {
                    AutonomousNumberingItemStatus::NeedsReview => result.destination.is_some(),
                    _ => false,
                };
                if review {
                    self.review_results.insert(0, result.clone());
                    assert(self.review_results@.drop_first() =~= old(self).review_results@);
                }
                self.recent_results.insert(0, result);
                self.recent_results.truncate(MAX_RECENT_RESULTS);
                assert(self.recent_results@ =~= latest(old(self).recent_results@.insert(0, result)));
            },
        }
    }

    /// What the session is told of the run.
    pub fn progress_snapshot(&self, running: bool) -> (snapshot: AutonomousProgressSnapshot)
        ensures
            snapshot.running == running,
            snapshot.completed == self.completed,
            snapshot.total == self.total,
            snapshot.assigned == self.assigned,
            snapshot.needs_review == self.needs_review,
            snapshot.already_completed == self.already_completed,
            snapshot.skipped_missing == self.skipped_missing,
            snapshot.failed == self.failed,
            snapshot.active_files@ == self.active_files@,
            snapshot.last_message == self.last_message,
    {
        AutonomousProgressSnapshot {
            running,
            completed: self.completed,
            total: self.total,
            assigned: self.assigned,
            needs_review: self.needs_review,
            already_completed: self.already_completed,
            skipped_missing: self.skipped_missing,
            failed: self.failed,
            active_files: text::copy_list(&self.active_files),
            last_message: self.last_message.clone(),
        }
    }
}

/// The results that are shown are never more than there is room for.
pub proof fn recent_results_are_bounded(
    results: Seq<AutonomousNumberingItemResult>,
    result: AutonomousNumberingItemResult,
)
    requires
        results.len() <= MAX_RECENT_RESULTS,
    ensures
        latest(results.insert(0, result)).len() <= MAX_RECENT_RESULTS,
        latest(results.insert(0, result))[0] == result,
{
}

/// What is said when a run is over.
pub open spec fn final_message(summary: AutonomousNumberingSummary, cancelled: bool) -> Seq<char> {
    let counts = text::decimal(summary.processed as nat) + " of "@ + text::decimal(
        summary.discovered as nat,
    ) + " processed, "@ + text::decimal(summary.assigned as nat) + " assigned, "@ + text::decimal(
        summary.needs_review as nat,
    ) + " left for review, "@ + text::decimal(summary.already_completed as nat)
        + " already done, "@;
    if summary.cancelled || cancelled {
        "Stopped - "@ + (counts + text::decimal(summary.failed as nat) + " failed"@)
    } else {
        "Done - "@ + (counts + text::decimal(summary.skipped_missing as nat) + " missing, "@
            + text::decimal(summary.failed as nat) + " failed"@)
    }
}

/// Says how a run went.
pub fn final_status_message(summary: &AutonomousNumberingSummary, cancelled: bool) -> (message:
    String)
    ensures
        message@ == final_message(*summary, cancelled),
{
    let mut counts = text::decimal_text(summary.processed as u64);
    text::push_text(&mut counts, " of ");
    text::push_decimal(&mut counts, summary.discovered as u64);
    text::push_text(&mut counts, " processed, ");
    text::push_decimal(&mut counts, summary.assigned as u64);
    text::push_text(&mut counts, " assigned, ");
    text::push_decimal(&mut counts, summary.needs_review as u64);
    text::push_text(&mut counts, " left for review, ");
    text::push_decimal(&mut counts, summary.already_completed as u64);
    text::push_text(&mut counts, " already done, ");
    let stopped = summary.cancelled || cancelled;
    if !stopped {
        text::push_decimal(&mut counts, summary.skipped_missing as u64);
        text::push_text(&mut counts, " missing, ");
    }
    text::push_decimal(&mut counts, summary.failed as u64);
    text::push_text(&mut counts, " failed");
    let mut message = if stopped {
        text::owned("Stopped - ")
    } else {
        text::owned("Done - ")
    };
    text::push_text(&mut message, counts.as_str());
    message
}

/// The word for an outcome.
pub open spec fn label_of(status: AutonomousNumberingItemStatus) -> Seq<char> {
    match status {
        AutonomousNumberingItemStatus::Assigned => "Assigned"@,
        AutonomousNumberingItemStatus::NeedsReview => "Review"@,
        AutonomousNumberingItemStatus::AlreadyCompleted => "Done"@,
        AutonomousNumberingItemStatus::SkippedMissing => "Missing"@,
        AutonomousNumberingItemStatus::Failed => "Failed"@,
    }
}

/// The word for an outcome.
pub fn result_label(status: AutonomousNumberingItemStatus) -> (label: String)
    ensures
        label@ == label_of(status),
{
    match status {
        AutonomousNumberingItemStatus::Assigned => text::owned("Assigned"),
        AutonomousNumberingItemStatus::NeedsReview => text::owned("Review"),
        AutonomousNumberingItemStatus::AlreadyCompleted => text::owned("Done"),
        AutonomousNumberingItemStatus::SkippedMissing => text::owned("Missing"),
        AutonomousNumberingItemStatus::Failed => text::owned("Failed"),
    }
}

/// A span of time in its two largest units.
pub open spec fn duration_text(seconds: nat) -> Seq<char> {
    let hours = seconds / 3600;
    let minutes = (seconds % 3600) / 60;
    let rest = seconds % 60;
    if hours > 0 {
        text::decimal(hours) + "h "@ + text::decimal(minutes) + "m"@
    } else if minutes > 0 {
        text::decimal(minutes) + "m "@ + text::decimal(rest) + "s"@
    } else {
        text::decimal(rest) + "s"@
    }
}

/// Writes a span of time in its two largest units.
pub fn format_duration(seconds: u64) -> (s: String)
    ensures
        s@ == duration_text(seconds as nat),
{
    let hours: u64 = seconds / 3600;
    let minutes: u64 = (seconds % 3600) / 60;
    let rest: u64 = seconds % 60;
    if hours > 0 {
        let mut s = text::decimal_text(hours);
        text::push_text(&mut s, "h ");
        text::push_decimal(&mut s, minutes);
        text::push_text(&mut s, "m");
        s
    } else if minutes > 0 {
        let mut s = text::decimal_text(minutes);
        text::push_text(&mut s, "m ");
        text::push_decimal(&mut s, rest);
        text::push_text(&mut s, "s");
        s
    } else {
        let mut s = text::decimal_text(rest);
        text::push_text(&mut s, "s");
        s
    }
}

/// How long a run still takes.
#[derive(Clone, Copy, Debug, PartialEq, Eq, Structural)]
pub enum RemainingTime {
    /// That cannot be told.
    Unknown,
    /// It is as good as done.
    Nothing,
    /// As long per image as so far: this many done, this many left.
    Scaled { completed: usize, remaining: usize },
}

/// Tells from what the time that a run still takes can be computed.
pub fn remaining_time(running: bool, completed: usize, total: usize) -> (time: RemainingTime)
    ensures
        time == (if !running || completed == 0 {
            RemainingTime::Unknown
        } else if total <= completed {
            RemainingTime::Nothing
        } else {
            RemainingTime::Scaled { completed, remaining: (total - completed) as usize }
        }),
{
    if !running || completed == 0 {
        RemainingTime::Unknown
    } else if total <= completed {
        RemainingTime::Nothing
    } else {
        RemainingTime::Scaled { completed, remaining: total - completed }
    }
}

/// The name of the folder that a result went to, where it is text.
pub open spec fn destination_folder(result: AutonomousNumberingItemResult) -> Option<Seq<char>> {
    match result.destination {
        Some(path) => match paths::parent(path@) {
            Some(folder) => paths::file_name_text(folder),
            None => None,
        },
        None => None,
    }
}

/// The pieces of what is shown beside a result.
pub open spec fn detail_sayings(
    result: AutonomousNumberingItemResult,
    percent: Option<Score>,
    with_target: bool,
) -> Seq<note::Saying> {
    let number = match result.number {
        Some(n) => seq![note::words(" "@), note::words(n@)],
        None => Seq::<note::Saying>::empty(),
    };
    let confidence = match percent {
        Some(p) => seq![note::words(" "@), note::fixed(p, 0), note::words("%"@)],
        None => Seq::<note::Saying>::empty(),
    };
    let folder = match destination_folder(result) {
        Some(f) => seq![note::words(" -> "@), note::words(f)],
        None => Seq::<note::Saying>::empty(),
    };
    let error = match result.error {
        Some(e) => seq![note::words(" - "@), note::words(e@)],
        None => Seq::<note::Saying>::empty(),
    };
    if with_target {
        number + confidence + folder + error
    } else {
        number + confidence
    }
}

/// What is shown beside a result: its number, how sure that is in percent and,
/// where asked for, the folder it went to and what went wrong.
pub fn result_details(
    result: &AutonomousNumberingItemResult,
    percent: Option<Score>,
    with_target: bool,
) -> (details: Note)
    ensures
        details@ == detail_sayings(*result, percent, with_target),
{
    let mut details = Note::new();
    match &result.number {
        Some(n) => {
            details.say(" ");
            details.say(n.as_str());
        },
        None => {},
    }
    match percent {
        Some(p) => {
            details.say(" ");
            details.write(p, 0);
            details.say("%");
        },
        None => {},
    }
    if with_target {
        let folder = match &result.destination {
            Some(path) => match path.parent() {
                Some(folder) => folder.file_name_text(),
                None => None,
            },
            None => None,
        };
        match &folder {
            Some(f) => {
                details.say(" -> ");
                details.say(f.as_str());
            },
            None => {},
        }
        match &result.error {
            Some(e) => {
                details.say(" - ");
                details.say(e.as_str());
            },
            None => {},
        }
    }
    assert(details@ =~= detail_sayings(*result, percent, with_target));
    details
}

/// The image that a result can be opened for: the one that is left for review.
pub fn review_path(result: &AutonomousNumberingItemResult) -> (path: Option<FilePath>)
    ensures
        paths::optional_view(path) == (if result.status
            == AutonomousNumberingItemStatus::NeedsReview {
            paths::optional_view(result.destination)
        } else {
            None
        }),
{
    match result.status {
        AutonomousNumberingItemStatus::NeedsReview => paths::copy_optional(&result.destination),
        _ => None,
    }
}

/// The window: which folder it is for, whether a run is on, and what it says.
#[derive(Debug)]
pub struct AutonomousNumberingWindow {
    pub source_dir: Option<FilePath>,
    pub is_running: bool,
    pub progress: AutonomousUiProgress,
    pub summary: Option<AutonomousNumberingSummary>,
    pub status_message: String,
    pub session_source_revision: u64,
    pub session_completed_revision: u64,
}

/// What is said of the folder.
pub open spec fn source_message(source_dir: Option<Seq<u8>>) -> Seq<char> {
    match source_dir {
        Some(dir) => "Source: "@ + paths::shown(dir),
        None => "Select a source folder"@,
    }
}

/// The name that the folder is shown by.
pub open spec fn source_name(source_dir: Option<FilePath>) -> Seq<char> {
    match source_dir {
        Some(dir) => match paths::file_name_text(dir@) {
            Some(name) => name,
            None => "Not set"@,
        },
        None => "Not set"@,
    }
}

fn describe_source(source_dir: &Option<FilePath>) -> (message: String)
    ensures
        message@ == source_message(paths::optional_view(*source_dir)),
{
    match source_dir {
        Some(dir) => {
            let mut message = text::owned("Source: ");
            let shown = dir.display_text();
            text::push_text(&mut message, shown.as_str());
            message
        },
        None => text::owned("Select a source folder"),
    }
}

impl AutonomousNumberingWindow {
    /// A window for the folder that the session is at.
    pub fn new(source_dir: Option<FilePath>) -> (window: AutonomousNumberingWindow)
        ensures
            window.source_dir == source_dir,
            !window.is_running,
            is_fresh(window.progress, Seq::<char>::empty()),
            window.summary is None,
            window.status_message@ == source_message(paths::optional_view(source_dir)),
            window.session_source_revision == 0,
            window.session_completed_revision == 0,
    {
        let status_message = describe_source(&source_dir);
        proof {
            reveal_strlit("");
            assert(""@ =~= Seq::<char>::empty());
        }
        AutonomousNumberingWindow {
            source_dir,
            is_running: false,
            progress: AutonomousUiProgress::fresh(""),
            summary: None,
            status_message,
            session_source_revision: 0,
            session_completed_revision: 0,
        }
    }

    /// The folder's name, or that there is none.
    pub fn source_label(&self) -> (label: String)
        ensures
            label@ == source_name(self.source_dir),
    {
        match &self.source_dir {
            Some(dir) => match dir.file_name_text() {
                Some(name) => name,
                None => text::owned("Not set"),
            },
            None => text::owned("Not set"),
        }
    }

    /// Starts a run, unless one is on or no folder is chosen. Says what the run is
    /// asked for.
    pub fn start(&mut self) -> (config: Option<AutonomousNumberingConfig>)
        ensures
            config is Some <==> !old(self).is_running && old(self).source_dir is Some,
            old(self).is_running ==> *final(self) == *old(self),
            !old(self).is_running && old(self).source_dir is None ==> {
                &&& final(self).status_message@ == "Select a source folder first"@
                &&& !final(self).is_running
                &&& final(self).progress == old(self).progress
                &&& final(self).summary == old(self).summary
            },
            config matches Some(c) ==> {
                &&& c.source_dir@ == old(self).source_dir->0@
                &&& c.min_confidence == (Score { bits: MIN_AUTO_CONFIDENCE_BITS })
                &&& c.max_workers == MAX_AUTO_WORKERS
                &&& final(self).is_running
                &&& final(self).summary is None
                &&& is_fresh(final(self).progress, "Scanning source folder..."@)
                &&& final(self).status_message@ == "Running autonomous numbering..."@
            },
            final(self).source_dir == old(self).source_dir,
            final(self).session_source_revision == old(self).session_source_revision,
            final(self).session_completed_revision == old(self).session_completed_revision,
    {
        if self.is_running {
            return None;
        }
        let source_dir = match &self.source_dir {
            Some(dir) => dir.clone(),
            None => {
                self.status_message = text::owned("Select a source folder first");
                return None;
            },
        };
        self.is_running = true;
        self.summary = None;
        self.progress = AutonomousUiProgress::fresh("Scanning source folder...");
        self.status_message = text::owned("Running autonomous numbering...");
        Some(
            AutonomousNumberingConfig {
                source_dir,
                min_confidence: Score { bits: MIN_AUTO_CONFIDENCE_BITS },
                max_workers: MAX_AUTO_WORKERS,
            },
        )
    }

    /// Takes note that the run was asked to stop, if one is on.
    pub fn stop(&mut self, can_cancel: bool)
        ensures
            final(self).status_message@ == (if can_cancel {
                "Stopping after current OCR jobs finish..."@
            } else {
                old(self).status_message@
            }),
            final(self).source_dir == old(self).source_dir,
            final(self).is_running == old(self).is_running,
            final(self).progress == old(self).progress,
            final(self).summary == old(self).summary,
            final(self).session_source_revision == old(self).session_source_revision,
            final(self).session_completed_revision == old(self).session_completed_revision,
    {
        if can_cancel {
            self.status_message = text::owned("Stopping after current OCR jobs finish...");
        }
    }

    /// Takes note that the run is over.
    pub fn finish(
        &mut self,
        progress: AutonomousUiProgress,
        summary: AutonomousNumberingSummary,
        cancelled: bool,
        source_dir: Option<FilePath>,
    )
        ensures
            !final(self).is_running,
            final(self).progress == progress,
            final(self).summary == Some(summary),
            final(self).source_dir == source_dir,
            final(self).status_message@ == final_message(summary, cancelled),
            final(self).session_source_revision == old(self).session_source_revision,
            final(self).session_completed_revision == old(self).session_completed_revision,
    {
        self.is_running = false;
        self.progress = progress;
        self.source_dir = source_dir;
        self.status_message = final_status_message(&summary, cancelled);
        self.summary = Some(summary);
    }

    /// Takes over what is new in the session. While a run is on, a new folder is
    /// only announced; otherwise the window starts over with it. Tells whether it
    /// did.
    pub fn apply_session_changes(&mut self, changes: NumberingSessionChanges) -> (restarted: bool)
        ensures
            final(self).session_source_revision == changes.source_revision,
            final(self).session_completed_revision == changes.completed_revision,
            final(self).is_running == old(self).is_running,
            restarted == (changes.source_changed && !old(self).is_running),
            !restarted ==> {
                &&& final(self).source_dir == old(self).source_dir
                &&& final(self).progress == old(self).progress
                &&& final(self).summary == old(self).summary
                &&& final(self).status_message@ == (if changes.source_changed
                    && changes.source_dir is Some {
                    "Source changed to "@ + paths::shown(changes.source_dir->0@)
                        + "; current run will finish first"@
                } else {
                    old(self).status_message@
                })
            },
            restarted ==> {
                &&& final(self).source_dir == changes.source_dir
                &&& is_fresh(final(self).progress, Seq::<char>::empty())
                &&& final(self).summary is None
                &&& final(self).status_message@ == source_message(
                    paths::optional_view(changes.source_dir),
                )
            },
    {
        self.session_source_revision = changes.source_revision;
        self.session_completed_revision = changes.completed_revision;
        if !changes.source_changed {
            return false;
        }
        if self.is_running {
            match &changes.source_dir {
                Some(dir) => {
                    let mut message = text::owned("Source changed to ");
                    let shown = dir.display_text();
                    text::push_text(&mut message, shown.as_str());
                    text::push_text(&mut message, "; current run will finish first");
                    self.status_message = message;
                },
                None => {},
            }
            return false;
        }
        self.status_message = describe_source(&changes.source_dir);
        self.source_dir = changes.source_dir;
        proof {
            reveal_strlit("");
            assert(""@ =~= Seq::<char>::empty());
        }
        self.progress = AutonomousUiProgress::fresh("");
        self.summary = None;
        true
    }
}

/// A result as it is listed.
#[derive(Debug)]
pub struct ResultRow {
    pub label: String,
    pub file_name: String,
    pub details: Note,
    pub opens: Option<FilePath>,
}

/// A row lists a result. Only images that are left for review can be opened from it.
pub open spec fn lists_result(
    row: ResultRow,
    result: AutonomousNumberingItemResult,
    percent: Option<Score>,
) -> bool {
    &&& row.label@ == label_of(result.status)
    &&& row.file_name@ == result.file_name@
    &&& row.details@ == detail_sayings(result, percent, true)
    &&& paths::optional_view(row.opens) == (if result.status
        == AutonomousNumberingItemStatus::NeedsReview {
        paths::optional_view(result.destination)
    } else {
        None
    })
}

/// A row lists an image that is left for review.
pub open spec fn lists_review(
    row: ResultRow,
    result: AutonomousNumberingItemResult,
    percent: Option<Score>,
) -> bool {
    &&& row.label@ == label_of(result.status)
    &&& row.file_name@ == result.file_name@
    &&& row.details@ == detail_sayings(result, percent, false)
    &&& paths::optional_view(row.opens) == paths::optional_view(result.destination)
}

/// A figure of the run, under its name.
#[derive(Debug)]
pub struct StatRow {
    pub label: String,
    pub value: String,
}

/// The figures of a run as they are shown.
pub open spec fn stat_texts(
    progress: AutonomousUiProgress,
    elapsed: Seq<char>,
    eta: Seq<char>,
) -> Seq<(Seq<char>, Seq<char>)> {
    seq![
        (
            "Progress"@,
            text::decimal(progress.completed as nat) + "/"@ + text::decimal(progress.total as nat),
        ),
        ("Assigned"@, text::decimal(progress.assigned as nat)),
        ("Needs Review"@, text::decimal(progress.needs_review as nat)),
        ("Already Done"@, text::decimal(progress.already_completed as nat)),
        ("Missing"@, text::decimal(progress.skipped_missing as nat)),
        ("Failed"@, text::decimal(progress.failed as nat)),
        ("Elapsed"@, elapsed),
        ("ETA"@, eta),
    ]
}

/// A span of time, where it is known.
pub open spec fn time_text(seconds: Option<u64>) -> Seq<char> {
    match seconds {
        Some(s) => duration_text(s as nat),
        None => "--"@,
    }
}

fn format_time(seconds: Option<u64>) -> (s: String)
    ensures
        s@ == time_text(seconds),
{
    match seconds {
        Some(s) => format_duration(s),
        None => text::owned("--"),
    }
}

/// What the toolbar of the window shows, and which of its buttons can be pressed.
#[derive(Debug)]
pub struct AutonomousToolbar {
    pub source: String,
    pub start_label: String,
    pub can_start: bool,
    pub can_browse: bool,
    pub can_stop: bool,
}

impl AutonomousNumberingWindow {
    /// What the toolbar shows: a run can be started for a folder while none is on, and
    /// stopped while one is.
    pub fn render_toolbar(&self) -> (view: AutonomousToolbar)
        ensures
            view.source@ == "Source: "@ + source_name(self.source_dir),
            view.start_label@ == (if self.is_running {
                "Running"@
            } else {
                "Start"@
            }),
            view.can_start == (!self.is_running && self.source_dir is Some),
            view.can_browse == !self.is_running,
            view.can_stop == self.is_running,
    {
        let mut source = text::owned("Source: ");
        let label = self.source_label();
        text::push_text(&mut source, label.as_str());
        let start_label = if self.is_running {
            text::owned("Running")
        } else {
            text::owned("Start")
        };
        AutonomousToolbar {
            source,
            start_label,
            can_start: !self.is_running && self.source_dir.is_some(),
            can_browse: !self.is_running,
            can_stop: self.is_running,
        }
    }

    /// The figures of the run.
    pub fn render_stats(&self, elapsed: Option<u64>, eta: Option<u64>) -> (rows: Vec<StatRow>)
        ensures
            rows@.len() == 8,
            forall|i: int|
                0 <= i < 8 ==> (#[trigger] rows@[i]).label@ == stat_texts(
                    self.progress,
                    time_text(elapsed),
                    time_text(eta),
                )[i].0 && rows@[i].value@ == stat_texts(
                    self.progress,
                    time_text(elapsed),
                    time_text(eta),
                )[i].1,
    {
        let progress = &self.progress;
        let mut done = text::decimal_text(progress.completed as u64);
        text::push_text(&mut done, "/");
        text::push_decimal(&mut done, progress.total as u64);
        let mut rows: Vec<StatRow> = Vec::new();
        rows.push(StatRow { label: text::owned("Progress"), value: done });
        rows.push(
            StatRow {
                label: text::owned("Assigned"),
                value: text::decimal_text(progress.assigned as u64),
            },
        );
        rows.push(
            StatRow {
                label: text::owned("Needs Review"),
                value: text::decimal_text(progress.needs_review as u64),
            },
        );
        rows.push(
            StatRow {
                label: text::owned("Already Done"),
                value: text::decimal_text(progress.already_completed as u64),
            },
        );
        rows.push(
            StatRow {
                label: text::owned("Missing"),
                value: text::decimal_text(progress.skipped_missing as u64),
            },
        );
        rows.push(
            StatRow {
                label: text::owned("Failed"),
                value: text::decimal_text(progress.failed as u64),
            },
        );
        rows.push(StatRow { label: text::owned("Elapsed"), value: format_time(elapsed) });
        rows.push(StatRow { label: text::owned("ETA"), value: format_time(eta) });
        rows
    }

    /// The latest results as they are listed. The confidences are handed in as
    /// percentages.
    pub fn render_recent_results(&self, percents: &Vec<Option<Score>>) -> (rows: Vec<ResultRow>)
        requires
            percents@.len() == self.progress.recent_results@.len(),
        ensures
            rows@.len() == self.progress.recent_results@.len(),
            forall|i: int|
                0 <= i < rows@.len() ==> lists_result(
                    #[trigger] rows@[i],
                    self.progress.recent_results@[i],
                    percents@[i],
                ),
    {
        let results = &self.progress.recent_results;
        let mut rows: Vec<ResultRow> = Vec::new();
        let mut i: usize = 0;
        while i < results.len()
            invariant
                i <= results@.len(),
                percents@.len() == results@.len(),
                rows@.len() == i,
                forall|j: int|
                    0 <= j < i ==> lists_result(#[trigger] rows@[j], results@[j], percents@[j]),
            decreases results@.len() - i,
        {
            let result = &results[i];
            rows.push(
                ResultRow {
                    label: result_label(result.status),
                    file_name: result.file_name.clone(),
                    details: result_details(result, percents[i], true),
                    opens: review_path(result),
                },
            );
            i += 1;
        }
        rows
    }

    /// The images that are left for review as they are listed.
    pub fn render_review_queue(&self, percents: &Vec<Option<Score>>) -> (rows: Vec<ResultRow>)
        requires
            percents@.len() == self.progress.review_results@.len(),
        ensures
            rows@.len() == self.progress.review_results@.len(),
            forall|i: int|
                0 <= i < rows@.len() ==> lists_review(
                    #[trigger] rows@[i],
                    self.progress.review_results@[i],
                    percents@[i],
                ),
    {
        let results = &self.progress.review_results;
        let mut rows: Vec<ResultRow> = Vec::new();
        let mut i: usize = 0;
        while i < results.len()
            invariant
                i <= results@.len(),
                percents@.len() == results@.len(),
                rows@.len() == i,
                forall|j: int|
                    0 <= j < i ==> lists_review(#[trigger] rows@[j], results@[j], percents@[j]),
            decreases results@.len() - i,
        {
            let result = &results[i];
            rows.push(
                ResultRow {
                    label: result_label(result.status),
                    file_name: result.file_name.clone(),
                    details: result_details(result, percents[i], false),
                    opens: paths::copy_optional(&result.destination),
                },
            );
            i += 1;
        }
        rows
    }

    /// An image that is left for review was opened.
    pub fn review_opened(&mut self)
        ensures
            final(self).status_message@ == "Review image opened in the main window"@,
            *final(self) == (AutonomousNumberingWindow {
                status_message: final(self).status_message,
                ..*old(self)
            }),
    {
        self.status_message = text::owned("Review image opened in the main window");
    }
}

/// A run that is started here takes a number as sure from a confidence of 0.85 on, the
/// nearest single-precision number, and asks for eight workers.
pub proof fn confidences_below_the_limit_are_not_sure(confidence: Score)
    requires
        confidence.bits <= 0x7f80_0000,
    ensures
        confidence.lt(Score { bits: MIN_AUTO_CONFIDENCE_BITS }) <==> confidence.bits < 0x3f59_999a,
        MAX_AUTO_WORKERS == 8,
{
    crate::score::numbers_compare_by_their_bits(
        confidence,
        Score { bits: MIN_AUTO_CONFIDENCE_BITS },
    );
}

/// The newest twelve results are shown, in their order, and all of them where there are
/// fewer.
pub proof fn the_newest_twelve_are_shown(results: Seq<AutonomousNumberingItemResult>, i: int)
    ensures
        results.len() <= 12 ==> latest(results) == results,
        results.len() > 12 ==> latest(results).len() == 12,
        0 <= i < latest(results).len() ==> latest(results)[i] == results[i],
{
}

/// An image is kept for review just when it was left for review and it is known where it is.
pub proof fn images_left_for_review_are_kept(result: AutonomousNumberingItemResult)
    ensures
        is_for_review(result) ==> label_of(result.status) == "Review"@ && result.destination is Some,
        result.status == AutonomousNumberingItemStatus::NeedsReview && result.destination is Some
            ==> is_for_review(result),
        result.status == AutonomousNumberingItemStatus::Assigned || result.destination is None
            ==> !is_for_review(result),
{
}

/// Every outcome has its own word.
pub proof fn outcomes_have_their_words(status: AutonomousNumberingItemStatus)
    ensures
        status == AutonomousNumberingItemStatus::Assigned <==> label_of(status) == "Assigned"@,
        status == AutonomousNumberingItemStatus::NeedsReview <==> label_of(status) == "Review"@,
        status == AutonomousNumberingItemStatus::AlreadyCompleted <==> label_of(status) == "Done"@,
        status == AutonomousNumberingItemStatus::SkippedMissing <==> label_of(status)
            == "Missing"@,
        status == AutonomousNumberingItemStatus::Failed <==> label_of(status) == "Failed"@,
{
    reveal_strlit("Assigned");
    reveal_strlit("Review");
    reveal_strlit("Done");
    reveal_strlit("Missing");
    reveal_strlit("Failed");
    assert("Assigned"@.len() == 8);
    assert("Review"@.len() == 6);
    assert("Done"@.len() == 4);
    assert("Missing"@.len() == 7);
    assert("Failed"@.len() == 6);
    assert("Review"@[0] == 'R');
    assert("Failed"@[0] == 'F');
}

/// What is said at the end of a run tells that it is done or was stopped, and every count
/// under its name.
pub proof fn the_end_of_a_run_is_told(summary: AutonomousNumberingSummary, cancelled: bool)
    ensures
        ({
            let start = text::decimal(summary.processed as nat) + " of "@ + text::decimal(
                summary.discovered as nat,
            ) + " processed, "@ + text::decimal(summary.assigned as nat) + " assigned, "@
                + text::decimal(summary.needs_review as nat) + " left for review, "@
                + text::decimal(summary.already_completed as nat) + " already done, "@;
            let failed = text::decimal(summary.failed as nat) + " failed"@;
            let missing = text::decimal(summary.skipped_missing as nat) + " missing, "@;
            &&& summary.cancelled || cancelled ==> final_message(summary, cancelled)
                == "Stopped - "@ + start + failed
            &&& !summary.cancelled && !cancelled ==> final_message(summary, cancelled) == "Done - "@
                + start + missing + failed
        }),
{
    let start = text::decimal(summary.processed as nat) + " of "@ + text::decimal(
        summary.discovered as nat,
    ) + " processed, "@ + text::decimal(summary.assigned as nat) + " assigned, "@ + text::decimal(
        summary.needs_review as nat,
    ) + " left for review, "@ + text::decimal(summary.already_completed as nat)
        + " already done, "@;
    let failed = text::decimal(summary.failed as nat) + " failed"@;
    let missing = text::decimal(summary.skipped_missing as nat) + " missing, "@;
    if summary.cancelled || cancelled {
        assert(final_message(summary, cancelled) =~= "Stopped - "@ + start + failed);
    } else {
        assert(final_message(summary, cancelled) =~= "Done - "@ + start + missing + failed);
    }
}

/// A span of so many hours, minutes and seconds is written with its hours and minutes, below
/// an hour with its minutes and seconds, and below a minute with its seconds alone.
pub proof fn times_are_written_in_two_units(hours: nat, minutes: nat, seconds: nat)
    requires
        minutes < 60,
        seconds < 60,
    ensures
        ({
            let written = duration_text(3600 * hours + 60 * minutes + seconds);
            &&& hours > 0 ==> written == text::decimal(hours) + seq!['h', ' '] + text::decimal(
                minutes,
            ) + seq!['m']
            &&& hours == 0 && minutes > 0 ==> written == text::decimal(minutes) + seq!['m', ' ']
                + text::decimal(seconds) + seq!['s']
            &&& hours == 0 && minutes == 0 ==> written == text::decimal(seconds) + seq!['s']
        }),
{
    reveal_strlit("h ");
    reveal_strlit("m");
    reveal_strlit("m ");
    reveal_strlit("s");
    assert("h "@ =~= seq!['h', ' ']);
    assert("m"@ =~= seq!['m']);
    assert("m "@ =~= seq!['m', ' ']);
    assert("s"@ =~= seq!['s']);
    let all = 3600 * hours + 60 * minutes + seconds;
    assert(all / 3600 == hours);
    assert((all % 3600) / 60 == minutes);
    assert(all % 60 == seconds);
}

/// A file that went into a folder is shown with the name of that folder.
pub proof fn results_name_their_folder(
    result: AutonomousNumberingItemResult,
    folder: Seq<u8>,
    name: Seq<u8>,
)
    requires
        result.destination matches Some(path) && path@ == paths::joined(folder, name),
        folder.len() > 0,
        name.len() > 0,
        !name.contains(47u8),
        name != seq![46u8],
        name != seq![46u8, 46u8],
    ensures
        destination_folder(result) == paths::file_name_text(folder),
{
    paths::files_are_found_in_their_folders(folder, name);
}

/// Beside a result stand its number and how sure that is, each where there is one, and
/// behind them, only where that is asked for, its folder and what went wrong.
pub proof fn details_stand_in_their_order(
    result: AutonomousNumberingItemResult,
    percent: Option<Score>,
)
    ensures
        ({
            let short = detail_sayings(result, percent, false);
            let long = detail_sayings(result, percent, true);
            let number: int = if result.number is Some {
                2
            } else {
                0
            };
            let sure: int = if percent is Some {
                3
            } else {
                0
            };
            let folder: int = if destination_folder(result) is Some {
                2
            } else {
                0
            };
            let error: int = if result.error is Some {
                2
            } else {
                0
            };
            &&& short.len() == number + sure
            &&& long.len() == number + sure + folder + error
            &&& long.take(short.len() as int) == short
            &&& result.number matches Some(n) ==> short[0] == note::words(" "@) && short[1]
                == note::words(n@)
            &&& percent matches Some(p) ==> short[number] == note::words(" "@)
                && short[number + 1] == note::fixed(p, 0) && short[number + 2] == note::words("%"@)
            &&& destination_folder(result) matches Some(f) ==> long[number + sure] == note::words(
                " -> "@,
            ) && long[number + sure + 1] == note::words(f)
            &&& result.error matches Some(e) ==> long[long.len() - 2] == note::words(" - "@)
                && long.last() == note::words(e@)
        }),
{
    let short = detail_sayings(result, percent, false);
    let long = detail_sayings(result, percent, true);
    assert(long.take(short.len() as int) =~= short);
}

/// The folder is told by its path, and shown by its name; without one both say so.
pub proof fn the_source_is_told(dir: FilePath)
    ensures
        source_message(Some(dir@)) == "Source: "@ + paths::shown(dir@),
        source_message(None) == "Select a source folder"@,
        source_name(None) == "Not set"@,
        paths::file_name_text(dir@) matches Some(name) ==> source_name(Some(dir)) == name,
        paths::file_name_text(dir@) is None ==> source_name(Some(dir)) == "Not set"@,
{
}

/// Only an image that was left for review can be opened from the list of results; in the list
/// of images for review each can, where it is known where it is.
pub proof fn rows_open_what_is_for_review(
    row: ResultRow,
    result: AutonomousNumberingItemResult,
    percent: Option<Score>,
)
    ensures
        lists_result(row, result, percent) ==> row.file_name@ == result.file_name@ && (
        row.opens is Some <==> is_for_review(result)) && (row.opens matches Some(path)
            ==> result.destination matches Some(d) && path@ == d@) && row.label@ == label_of(
            result.status,
        ),
        lists_review(row, result, percent) ==> row.file_name@ == result.file_name@ && (
        row.opens is Some <==> result.destination is Some) && row.label@ == label_of(result.status),
{
}

/// The figures stand under their names, each once: those of the run, the time that went by
/// and the time that is left.
pub proof fn figures_stand_under_their_names(
    progress: AutonomousUiProgress,
    elapsed: Option<u64>,
    eta: Option<u64>,
)
    ensures
        ({
            let rows = stat_texts(progress, time_text(elapsed), time_text(eta));
            &&& rows.len() == 8
            &&& rows.contains(
                (
                    "Progress"@,
                    text::decimal(progress.completed as nat) + "/"@ + text::decimal(
                        progress.total as nat,
                    ),
                ),
            )
            &&& rows.contains(("Assigned"@, text::decimal(progress.assigned as nat)))
            &&& rows.contains(("Needs Review"@, text::decimal(progress.needs_review as nat)))
            &&& rows.contains(("Already Done"@, text::decimal(progress.already_completed as nat)))
            &&& rows.contains(("Missing"@, text::decimal(progress.skipped_missing as nat)))
            &&& rows.contains(("Failed"@, text::decimal(progress.failed as nat)))
            &&& elapsed matches Some(s) ==> rows.contains(("Elapsed"@, duration_text(s as nat)))
            &&& elapsed is None ==> rows.contains(("Elapsed"@, "--"@))
            &&& eta matches Some(s) ==> rows.contains(("ETA"@, duration_text(s as nat)))
            &&& eta is None ==> rows.contains(("ETA"@, "--"@))
        }),
{
    let rows = stat_texts(progress, time_text(elapsed), time_text(eta));
    assert(rows[0].0 == "Progress"@);
    assert(rows[1].0 == "Assigned"@);
    assert(rows[2].0 == "Needs Review"@);
    assert(rows[3].0 == "Already Done"@);
    assert(rows[4].0 == "Missing"@);
    assert(rows[5].0 == "Failed"@);
    assert(rows[6].0 == "Elapsed"@);
    assert(rows[7].0 == "ETA"@);
}

/// A window that shows no run yet counts nothing and lists nothing.
pub proof fn nothing_is_shown_at_first(progress: AutonomousUiProgress, message: Seq<char>)
    requires
        is_fresh(progress, message),
    ensures
        progress.completed == 0,
        progress.total == 0,
        progress.assigned == 0,
        progress.needs_review == 0,
        progress.already_completed == 0,
        progress.skipped_missing == 0,
        progress.failed == 0,
        progress.active_files@.len() == 0,
        progress.last_message@ == message,
        progress.recent_results@.len() == 0,
        progress.review_results@.len() == 0,
{
}

}
