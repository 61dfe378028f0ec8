//! Where sorted files go: the folder for a status, and the names that are tried
//! one after the other until one is free.

use crate::paths;
use crate::paths::FilePath;
use crate::text;
use vstd::prelude::*;

verus! {

/// Whether a file is copied to its folder or moved there.
#[derive(Clone, Copy, Debug, PartialEq, Eq, Structural)]
pub enum SortMode {
    Copy,
    Move,
}

/// How many names are tried for a file.
pub const MAX_ATTEMPTS: usize = 10_000;

/// The name of the folder, below the output directory, for a status and a number.
pub open spec fn folder_name(status: Seq<char>, number: Option<Seq<char>>) -> Seq<char> {
    if (status == "assigned_by_ocr"@ || status == "assigned_by_visual_match"@) && number is Some {
        number->0
    } else if status == "ambiguous"@ {
        "_ambiguous"@
    } else if status == "no_sticker_found"@ {
        "_no_sticker"@
    } else {
        "_review"@
    }
}

/// The folder that a file with this status and number is sorted into.
pub fn destination_folder(output_dir: &FilePath, status: &str, number: Option<&str>) -> (folder:
    FilePath)
    ensures
        folder@ == paths::joined(
            output_dir@,
            vstd::utf8::encode_utf8(
                folder_name(
                    status@,
                    match number {
                        Some(n) => Some(n@),
                        None => None,
                    },
                ),
            ),
        ),
{
    proof {
        reveal_strlit("assigned_by_ocr");
        reveal_strlit("assigned_by_visual_match");
        reveal_strlit("ambiguous");
        reveal_strlit("no_sticker_found");
    }
    if text::same_text(status, "assigned_by_ocr") || text::same_text(
        status,
        "assigned_by_visual_match",
    ) {
        match number {
            Some(n) => {
                return output_dir.join_text(n);
            },
            None => {},
        }
        assert(status@.len() == "assigned_by_ocr"@.len() || status@.len()
            == "assigned_by_visual_match"@.len());
        return output_dir.join_text("_review");
    }
    if text::same_text(status, "ambiguous") {
        return output_dir.join_text("_ambiguous");
    }
    if text::same_text(status, "no_sticker_found") {
        return output_dir.join_text("_no_sticker");
    }
    output_dir.join_text("_review")
}

/// The folders for what could not be sorted are marked by a leading underscore,
/// and no number is such a name: a number is a run of digits.
pub proof fn unsorted_files_go_to_marked_folders(status: Seq<char>, number: Option<Seq<char>>)
    ensures
        number is None ==> folder_name(status, number).len() > 0 && folder_name(status, number)[0]
            == '_',
        number matches Some(n) && text::all_digits(n) && n.len() > 0 ==> (folder_name(
            status,
            number,
        )[0] == '_' <==> !(status == "assigned_by_ocr"@ || status
            == "assigned_by_visual_match"@)),
{
    reveal_strlit("_ambiguous");
    reveal_strlit("_no_sticker");
    reveal_strlit("_review");
    if let Some(n) = number {
        if text::all_digits(n) && n.len() > 0 {
            assert(text::is_digit(n[0]));
        }
    }
}

/// The path that attempt `attempt` tries for a file in a folder.
pub open spec fn candidate_path(
    folder: Seq<u8>,
    name: Seq<u8>,
    attempt: nat,
) -> Seq<u8> {
    paths::joined(folder, paths::safe_name(name, attempt))
}

/// The path to try for a file after `attempt` names were taken, as long as names
/// are tried at all.
pub fn next_candidate(folder: &FilePath, name: &[u8], attempt: usize) -> (path: Option<FilePath>)
    ensures
        attempt >= MAX_ATTEMPTS ==> path is None,
        attempt < MAX_ATTEMPTS ==> path is Some && path->0@ == candidate_path(
            folder@,
            name@,
            attempt as nat,
        ),
{
    if attempt >= MAX_ATTEMPTS {
        return None;
    }
    let safe = paths::conflict_safe_name(name, attempt);
    Some(folder.join(safe.as_slice()))
}

/// What came of an attempt to put a file at a path.
#[derive(Clone, Copy, Debug, PartialEq, Eq, Structural)]
pub enum PlaceOutcome {
    /// The file is there now.
    Placed,
    /// Another file has that path.
    Taken,
    /// The file cannot be renamed across devices and has to be copied.
    OtherDevice,
    /// Something else went wrong.
    Failed,
}

/// What to do next with a file that is being placed.
#[derive(Debug)]
pub enum PlaceStep {
    /// Copy the file to the path, which must not exist yet.
    CopyNew(FilePath),
    /// Copy the file to the path, which must not exist yet, and remove the
    /// source once that is done.
    CopyNewAndRemove(FilePath),
    /// Rename the file to the path, unless the path exists.
    Rename(FilePath),
    /// The file is at the path.
    Done(FilePath),
    /// No name was free.
    NoFreeName,
    /// The last attempt failed for another reason than its name.
    GiveUp,
}

/// A file on its way into a folder: which names were taken so far.
#[derive(Debug)]
pub struct Placement {
    pub folder: FilePath,
    pub name: Vec<u8>,
    pub mode: SortMode,
    pub attempt: usize,
    pub copying: bool,
}

impl Placement {
    /// At most all names were tried.
    pub open spec fn wf(&self) -> bool {
        self.attempt <= MAX_ATTEMPTS
    }

    /// The step for the attempt that is due.
    pub open spec fn is_due_step(&self, step: PlaceStep) -> bool {
        if self.attempt >= MAX_ATTEMPTS {
            step is NoFreeName
        } else {
            let path = self.due_path();
            if self.mode == SortMode::Copy {
                step matches PlaceStep::CopyNew(p) && p@ == path
            } else if self.copying {
                step matches PlaceStep::CopyNewAndRemove(p) && p@ == path
            } else {
                step matches PlaceStep::Rename(p) && p@ == path
            }
        }
    }

    /// The path that is tried next.
    pub open spec fn due_path(&self) -> Seq<u8> {
        candidate_path(self.folder@, self.name@, self.attempt as nat)
    }

    /// A file that is to go into a folder under its own name.
    pub fn begin(folder: FilePath, name: Vec<u8>, mode: SortMode) -> (placement: Placement)
        ensures
            placement.wf(),
            placement.folder == folder,
            placement.name == name,
            placement.mode == mode,
            placement.attempt == 0,
            !placement.copying,
    {
        Placement { folder, name, mode, attempt: 0, copying: false }
    }

    /// What to do next.
    pub fn due_step(&self) -> (step: PlaceStep)
        ensures
            self.is_due_step(step),
    {
        match next_candidate(&self.folder, self.name.as_slice(), self.attempt) {
            None => PlaceStep::NoFreeName,
            Some(path) => match self.mode {
                SortMode::Copy => PlaceStep::CopyNew(path),
                SortMode::Move => if self.copying {
                    PlaceStep::CopyNewAndRemove(path)
                } else {
                    PlaceStep::Rename(path)
                },
            },
        }
    }

    /// Takes note of what came of the step that was due, and says what to do
    /// next. A name that is taken leads to the next name; a rename that cannot
    /// cross devices leads to a copy under the same name.
    pub fn advance(&mut self, outcome: PlaceOutcome) -> (step: PlaceStep)
        requires
            old(self).wf(),
            old(self).attempt < MAX_ATTEMPTS,
        ensures
            final(self).wf(),
            is_advanced(*old(self), *final(self), outcome, step),
    {
        match outcome {
            PlaceOutcome::Placed => {
                let safe = paths::conflict_safe_name(self.name.as_slice(), self.attempt);
                PlaceStep::Done(self.folder.join(safe.as_slice()))
            },
            PlaceOutcome::Taken => {
                self.attempt = self.attempt + 1;
                self.copying = false;
                self.due_step()
            },
            PlaceOutcome::OtherDevice => {
                match self.mode {
                    SortMode::Move => {
                        if self.copying {
                            PlaceStep::GiveUp
                        } else {
                            self.copying = true;
                            self.due_step()
                        }
                    },
                    SortMode::Copy => PlaceStep::GiveUp,
                }
            },
            PlaceOutcome::Failed => PlaceStep::GiveUp,
        }
    }
}

/// What an outcome makes of a placement, and the step that follows: a file that is
/// placed is done, a name that is taken leads to the next one, and a rename that cannot
/// cross devices to a copy under the same name. Anything else ends it.
pub open spec fn is_advanced(
    before: Placement,
    after: Placement,
    outcome: PlaceOutcome,
    step: PlaceStep,
) -> bool {
    match outcome {
        PlaceOutcome::Placed => after == before && (step matches PlaceStep::Done(p) && p@
            == before.due_path()),
        PlaceOutcome::Taken => {
            &&& after.folder == before.folder
            &&& after.name == before.name
            &&& after.mode == before.mode
            &&& after.attempt == before.attempt + 1
            &&& !after.copying
            &&& after.is_due_step(step)
        },
        PlaceOutcome::OtherDevice => if before.mode == SortMode::Move && !before.copying {
            &&& after == (Placement { copying: true, ..before })
            &&& after.is_due_step(step)
        } else {
            after == before && step is GiveUp
        },
        PlaceOutcome::Failed => after == before && step is GiveUp,
    }
}

/// Whatever the outcomes of earlier attempts, a later attempt never tries a path
/// again, so nothing that was found at one of them is overwritten.
pub proof fn attempts_never_repeat(folder: Seq<u8>, name: Seq<u8>, i: nat, j: nat)
    requires
        i != j,
        name.len() == 0 || name[0] != 47,
    ensures
        candidate_path(folder, name, i) != candidate_path(folder, name, j),
{
    paths::safe_names_differ(name, i, j);
    paths::safe_names_are_relative(name, i);
    paths::safe_names_are_relative(name, j);
    paths::joined_paths_differ(folder, paths::safe_name(name, i), paths::safe_name(name, j));
}

/// A file keeps its own name where that is free: it is the first one that is tried.
pub proof fn own_name_comes_first(folder: Seq<u8>, name: Seq<u8>)
    ensures
        candidate_path(folder, name, 0) == paths::joined(folder, name),
{
}

/// All names that were tried so far belong to other files.
pub open spec fn only_taken_were_tried(placement: Placement, taken: Set<Seq<u8>>) -> bool {
    forall|i: nat|
        i < placement.attempt ==> taken.contains(
            #[trigger] candidate_path(placement.folder@, placement.name@, i),
        )
}

/// A file is never placed over another one, and is not left unplaced while a name is
/// free. `taken` holds the paths of other files; an attempt places the file only at a
/// path that is none of them, and finds a name taken only where it is one of them. Then
/// a file that is done is at a free path, and the names run out only where all are
/// taken.
pub proof fn files_are_placed_where_nothing_is(
    before: Placement,
    after: Placement,
    outcome: PlaceOutcome,
    step: PlaceStep,
    taken: Set<Seq<u8>>,
)
    requires
        before.wf(),
        before.attempt < MAX_ATTEMPTS,
        only_taken_were_tried(before, taken),
        outcome is Placed ==> !taken.contains(before.due_path()),
        outcome is Taken ==> taken.contains(before.due_path()),
        is_advanced(before, after, outcome, step),
    ensures
        only_taken_were_tried(after, taken),
        step matches PlaceStep::Done(p) ==> !taken.contains(p@),
        step is NoFreeName ==> forall|i: nat|
            i < MAX_ATTEMPTS ==> taken.contains(
                #[trigger] candidate_path(before.folder@, before.name@, i),
            ),
{
    assert forall|i: nat| i < after.attempt implies taken.contains(
        #[trigger] candidate_path(after.folder@, after.name@, i),
    ) by {
        if i < before.attempt {
            assert(taken.contains(candidate_path(before.folder@, before.name@, i)));
        } else {
            assert(i == before.attempt);
        }
    }
}

/// Starts to place a file in the folder for its status and number. A path that
/// names no file cannot be placed.
pub fn place_file(
    source: &FilePath,
    output_dir: &FilePath,
    status: &str,
    number: Option<&str>,
    mode: SortMode,
) -> (placement: Option<Placement>)
    ensures
        placement is None <==> paths::file_name(source@) is None,
        placement matches Some(p) ==> {
            &&& p.wf()
            &&& p.folder@ == paths::joined(
                output_dir@,
                vstd::utf8::encode_utf8(
                    folder_name(
                        status@,
                        match number {
                            Some(n) => Some(n@),
                            None => None,
                        },
                    ),
                ),
            )
            &&& paths::file_name(source@) == Some(p.name@)
            &&& p.mode == mode
            &&& p.attempt == 0
            &&& !p.copying
        },
{
    match source.file_name() {
        None => None,
        Some(name) => Some(
            Placement::begin(destination_folder(output_dir, status, number), name, mode),
        ),
    }
}

/// An image that was given a number goes into the folder of that number, one whose evidence
/// conflicts among the ambiguous ones, one without a sticker among those, and every other
/// one is left for review, also where a number is missing.
pub proof fn images_go_where_their_status_says(status: Seq<char>, number: Option<Seq<char>>)
    ensures
        status == "assigned_by_ocr"@ || status == "assigned_by_visual_match"@ ==> match number {
            Some(n) => folder_name(status, number) == n,
            None => folder_name(status, number) == "_review"@,
        },
        status == "ambiguous"@ ==> folder_name(status, number) == "_ambiguous"@,
        status == "no_sticker_found"@ ==> folder_name(status, number) == "_no_sticker"@,
        status != "assigned_by_ocr"@ && status != "assigned_by_visual_match"@ && status
            != "ambiguous"@ && status != "no_sticker_found"@ ==> folder_name(status, number)
            == "_review"@,
{
    reveal_strlit("assigned_by_ocr");
    reveal_strlit("assigned_by_visual_match");
    reveal_strlit("ambiguous");
    reveal_strlit("no_sticker_found");
    assert("assigned_by_ocr"@.len() == 15);
    assert("assigned_by_visual_match"@.len() == 24);
    assert("ambiguous"@.len() == 9);
    assert("no_sticker_found"@.len() == 16);
}

/// Ten thousand names are tried and no more. A file that is to be copied is only copied; one
/// that is to be moved is renamed, or, where that cannot be done, copied and then removed.
/// Every step is for the name that is due.
pub proof fn steps_do_what_the_mode_asks(placement: Placement, step: PlaceStep)
    requires
        placement.is_due_step(step),
    ensures
        step is NoFreeName <==> placement.attempt >= 10_000,
        placement.attempt < 10_000 ==> {
            &&& step is CopyNew <==> placement.mode == SortMode::Copy
            &&& step is Rename <==> placement.mode == SortMode::Move && !placement.copying
            &&& step is CopyNewAndRemove <==> placement.mode == SortMode::Move && placement.copying
        },
        step matches PlaceStep::CopyNew(p) ==> p@ == paths::joined(
            placement.folder@,
            paths::safe_name(placement.name@, placement.attempt as nat),
        ),
        step matches PlaceStep::Rename(p) ==> p@ == paths::joined(
            placement.folder@,
            paths::safe_name(placement.name@, placement.attempt as nat),
        ),
        step matches PlaceStep::CopyNewAndRemove(p) ==> p@ == paths::joined(
            placement.folder@,
            paths::safe_name(placement.name@, placement.attempt as nat),
        ),
{
}

/// A file is done just when it was placed, and then it is where the last attempt put it. Only
/// a name that was taken leads to another name, and to the next one. A rename across devices
/// is tried again as a copy, once; whatever else goes wrong ends the placement. The folder,
/// the file's name and the mode never change.
pub proof fn outcomes_lead_to_their_steps(
    before: Placement,
    after: Placement,
    outcome: PlaceOutcome,
    step: PlaceStep,
)
    requires
        before.attempt < MAX_ATTEMPTS,
        is_advanced(before, after, outcome, step),
    ensures
        after.folder == before.folder,
        after.name == before.name,
        after.mode == before.mode,
        step is Done <==> outcome is Placed,
        step matches PlaceStep::Done(p) ==> p@ == paths::joined(
            before.folder@,
            paths::safe_name(before.name@, before.attempt as nat),
        ),
        after.attempt == before.attempt + (if outcome is Taken {
            1int
        } else {
            0
        }),
        step is GiveUp <==> outcome is Failed || (outcome is OtherDevice && (before.mode
            == SortMode::Copy || before.copying)),
        outcome is OtherDevice && before.mode == SortMode::Move && !before.copying
            ==> step is CopyNewAndRemove && after.copying,
        outcome is Taken && after.attempt < 10_000 ==> (step is CopyNew <==> before.mode
            == SortMode::Copy) && (step is Rename <==> before.mode == SortMode::Move),
        outcome is Taken && after.attempt == 10_000 ==> step is NoFreeName,
{
}

}
