//! Numbering by hand: a queue of images, one of which is shown. The number that
//! is typed for it moves or renames its file and takes it off the queue; the
//! last such step can be undone.

use crate::collections;
use crate::paths;
use crate::paths::FilePath;
use crate::text;
use rapidhash::RapidHashMap;
use vstd::prelude::*;

verus! {

/// A file that was moved, and the number that it was given.
#[derive(Debug)]
pub struct MoveOperation {
    pub original_path: FilePath,
    pub new_path: FilePath,
    pub number: String,
    pub parsed_number: Option<u32>,
}

/// The queue and what was done so far.
#[derive(Debug)]
pub struct NumberingState {
    pub source_folder: Option<FilePath>,
    pub image_paths: Vec<FilePath>,
    pub current_index: usize,
    pub input_buffer: String,
    pub undo_stack: Vec<MoveOperation>,
    pub status_message: String,
    pub move_to_folder: bool,
    pub rename_to_number: bool,
    pub number_counts: RapidHashMap<u32, u32>,
}

/// The file that a number is confirmed for: where it is to go, and whether that
/// folder has to be made first.
#[derive(Debug)]
pub struct ConfirmRequest {
    pub number: String,
    pub current_path: FilePath,
    pub target_dir: FilePath,
    pub create_dir: bool,
}

/// The move that a confirmed number comes to.
#[derive(Debug)]
pub struct ConfirmMove {
    pub operation: MoveOperation,
    pub target_filename: String,
}

/// The name that a file is renamed to when `count` files had its number before.
pub open spec fn numbered_name(number: Seq<char>, count: nat, extension: Seq<char>) -> Seq<char> {
    if count == 0 {
        number + "."@ + extension
    } else {
        number + " ("@ + text::decimal(count + 1) + ")."@ + extension
    }
}

/// The extension that a renamed file keeps; `jpg` where it has none.
pub open spec fn kept_extension(path: Seq<u8>) -> Seq<char> {
    match paths::file_extension_text(path) {
        Some(e) => e,
        None => "jpg"@,
    }
}

/// How often a number was given so far.
pub open spec fn times(counts: Map<u32, u32>, number: u32) -> u32 {
    if counts.dom().contains(number) {
        counts[number]
    } else {
        0
    }
}

/// The counts after a number was given once more.
pub open spec fn given(counts: Map<u32, u32>, number: Option<u32>) -> Map<u32, u32> {
    match number {
        Some(n) => counts.insert(n, (times(counts, n) + 1) as u32),
        None => counts,
    }
}

/// The counts after a number was given back once.
pub open spec fn given_back(counts: Map<u32, u32>, number: Option<u32>) -> Map<u32, u32> {
    match number {
        Some(n) => if counts.dom().contains(n) {
            if counts[n] <= 1 {
                counts.remove(n)
            } else {
                counts.insert(n, (counts[n] - 1) as u32)
            }
        } else {
            counts
        },
        None => counts,
    }
}

/// Where the queue stands after the image at `index` left it: at the next image,
/// or at the last one where there is no next.
pub open spec fn index_after_removal(index: usize, len: nat) -> usize {
    if index >= len && index > 0 {
        (index - 1) as usize
    } else {
        index
    }
}

/// Where confirming a number fails, the first reason first.
pub open spec fn confirm_fault(state: NumberingState) -> Option<Seq<char>> {
    if text::trimmed(state.input_buffer@).len() == 0 {
        Some("Please enter a number"@)
    } else if !state.move_to_folder && !state.rename_to_number {
        Some("Enable 'Move to folder' or 'Rename to number' (or both)"@)
    } else if state.source_folder is None {
        Some("No folder selected"@)
    } else if state.current_index >= state.image_paths@.len() {
        Some("No image selected"@)
    } else {
        None
    }
}

impl NumberingState {
    /// The counts of the numbers that files were renamed to.
    pub open spec fn counts(&self) -> Map<u32, u32> {
        collections::count_entries(self.number_counts)
    }

    /// No number is counted that was never given.
    pub open spec fn wf(&self) -> bool {
        forall|n: u32| #[trigger] self.counts().dom().contains(n) ==> self.counts()[n] >= 1
    }

    /// The queue as paths.
    pub open spec fn queue(&self) -> Seq<Seq<u8>> {
        paths::paths_view(self.image_paths@)
    }

    /// An empty queue.
    pub fn new() -> (state: NumberingState)
        ensures
            state.wf(),
            state.source_folder is None,
            state.image_paths@.len() == 0,
            state.current_index == 0,
            state.input_buffer@.len() == 0,
            state.undo_stack@.len() == 0,
            state.status_message@ == "Open a folder to begin numbering"@,
            state.move_to_folder,
            !state.rename_to_number,
            state.counts() == Map::<u32, u32>::empty(),
    {
        NumberingState {
            source_folder: None,
            image_paths: Vec::new(),
            current_index: 0,
            input_buffer: String::new(),
            undo_stack: Vec::new(),
            status_message: text::owned("Open a folder to begin numbering"),
            move_to_folder: true,
            rename_to_number: false,
            number_counts: collections::counts_new(),
        }
    }

    /// The image that is shown.
    pub fn current_image(&self) -> (image: Option<&FilePath>)
        ensures
            self.current_index < self.image_paths@.len() ==> image == Some(
                &self.image_paths@[self.current_index as int],
            ),
            self.current_index >= self.image_paths@.len() ==> image is None,
    {
        if self.current_index < self.image_paths.len() {
            Some(&self.image_paths[self.current_index])
        } else {
            None
        }
    }

    /// Goes to the next image, where there is one, and forgets what was typed.
    pub fn next_image(&mut self)
        ensures
            old(self).current_index + 1 < old(self).image_paths@.len() ==> {
                &&& final(self).current_index == old(self).current_index + 1
                &&& final(self).input_buffer@.len() == 0
            },
            old(self).current_index + 1 >= old(self).image_paths@.len() ==> *final(self) == *old(
                self),
            final(self).source_folder == old(self).source_folder,
            final(self).image_paths == old(self).image_paths,
            final(self).undo_stack == old(self).undo_stack,
            final(self).status_message == old(self).status_message,
            final(self).move_to_folder == old(self).move_to_folder,
            final(self).rename_to_number == old(self).rename_to_number,
            final(self).number_counts == old(self).number_counts,
    {
        if self.image_paths.len() > 0 && self.current_index < self.image_paths.len() - 1 {
            self.current_index = self.current_index + 1;
            self.input_buffer = String::new();
        }
    }

    /// Goes to the image before, where there is one, and forgets what was typed.
    pub fn prev_image(&mut self)
        ensures
            old(self).current_index > 0 ==> {
                &&& final(self).current_index == old(self).current_index - 1
                &&& final(self).input_buffer@.len() == 0
            },
            old(self).current_index == 0 ==> *final(self) == *old(self),
            final(self).source_folder == old(self).source_folder,
            final(self).image_paths == old(self).image_paths,
            final(self).undo_stack == old(self).undo_stack,
            final(self).status_message == old(self).status_message,
            final(self).move_to_folder == old(self).move_to_folder,
            final(self).rename_to_number == old(self).rename_to_number,
            final(self).number_counts == old(self).number_counts,
    {
        if self.current_index > 0 {
            self.current_index = self.current_index - 1;
            self.input_buffer = String::new();
        }
    }

    /// Looks at what was typed for the image that is shown. Where a number can be
    /// confirmed, says for which file and into which folder.
    pub fn confirm_number(&self) -> (request: Result<ConfirmRequest, String>)
        ensures
            match request {
                Err(why) => confirm_fault(*self) == Some(why@),
                Ok(r) => {
                    &&& confirm_fault(*self) is None
                    &&& r.number@ == text::trimmed(self.input_buffer@)
                    &&& r.current_path@ == self.image_paths@[self.current_index as int]@
                    &&& r.create_dir == self.move_to_folder
                    &&& r.target_dir@ == (if self.move_to_folder {
                        paths::joined(
                            self.source_folder->0@,
                            vstd::utf8::encode_utf8(text::trimmed(self.input_buffer@)),
                        )
                    } else {
                        self.source_folder->0@
                    })
                },
            },
    {
        let number = text::trim(self.input_buffer.as_str());
        if number.as_str().is_empty() {
            return Err(text::owned("Please enter a number"));
        }
        if !self.move_to_folder && !self.rename_to_number {
            return Err(text::owned("Enable 'Move to folder' or 'Rename to number' (or both)"));
        }
        let source_folder = match &self.source_folder {
            Some(folder) => folder,
            None => {
                return Err(text::owned("No folder selected"));
            },
        };
        let current_path = match self.current_image() {
            Some(path) => path.clone(),
            None => {
                return Err(text::owned("No image selected"));
            },
        };
        let target_dir = if self.move_to_folder {
            source_folder.join_text(number.as_str())
        } else {
            source_folder.clone()
        };
        Ok(ConfirmRequest { number, current_path, target_dir, create_dir: self.move_to_folder })
    }

    /// How often a number was given so far.
    pub fn times_given(&self, number: u32) -> (count: u32)
        ensures
            count == times(self.counts(), number),
    {
        match collections::counts_get(&self.number_counts, number) {
            Some(count) => count,
            None => 0,
        }
    }

    /// The move that a request comes to, once its folder is there. Where files are
    /// renamed, the number must be one, and it is counted: the next file with the
    /// number gets another name. A number that was given as often as can be
    /// counted is left out.
    pub fn name_target(&mut self, request: ConfirmRequest) -> (target: Result<ConfirmMove, String>)
        requires
            old(self).wf(),
            old(self).rename_to_number ==> forall|n: u32|
                text::read_unsigned(request.number@, u32::MAX as nat) == Some(n as nat) ==> times(
                    old(self).counts(),
                    n,
                ) < u32::MAX,
        ensures
            final(self).wf(),
            final(self).source_folder == old(self).source_folder,
            final(self).image_paths == old(self).image_paths,
            final(self).current_index == old(self).current_index,
            final(self).input_buffer == old(self).input_buffer,
            final(self).undo_stack == old(self).undo_stack,
            final(self).status_message == old(self).status_message,
            final(self).move_to_folder == old(self).move_to_folder,
            final(self).rename_to_number == old(self).rename_to_number,
            target matches Ok(t) ==> {
                &&& t.operation.original_path == request.current_path
                &&& t.operation.number == request.number
                &&& t.operation.new_path@ == paths::joined(
                    request.target_dir@,
                    vstd::utf8::encode_utf8(t.target_filename@),
                )
            },
            old(self).rename_to_number ==> match text::read_unsigned(
                request.number@,
                u32::MAX as nat,
            ) {
                None => final(self).counts() == old(self).counts() && (target matches Err(why)
                    && why@ == "'"@ + request.number@ + "' is not a valid number"@),
                Some(n) => {
                    &&& final(self).counts() == given(old(self).counts(), Some(n as u32))
                    &&& target matches Ok(t) && t.operation.parsed_number == Some(n as u32)
                        && t.target_filename@ == numbered_name(
                        request.number@,
                        times(old(self).counts(), n as u32) as nat,
                        kept_extension(request.current_path@),
                    )
                },
            },
            !old(self).rename_to_number ==> {
                &&& final(self).counts() == old(self).counts()
                &&& match paths::file_name(request.current_path@) {
                    None => target matches Err(why) && why@ == "Invalid filename"@,
                    Some(name) => target matches Ok(t) && t.operation.parsed_number is None
                        && t.target_filename@ == paths::lossy_text(name) && (
                    vstd::utf8::valid_utf8(name) ==> t.target_filename@
                        == vstd::utf8::decode_utf8(name)),
                }
            },
    {
        if !self.rename_to_number {
            let name = match request.current_path.file_name() {
                Some(name) => name,
                None => {
                    return Err(text::owned("Invalid filename"));
                },
            };
            let target_filename = paths::decode_lossy(name.as_slice());
            let new_path = request.target_dir.join_text(target_filename.as_str());
            return Ok(
                ConfirmMove {
                    operation: MoveOperation {
                        original_path: request.current_path,
                        new_path,
                        number: request.number,
                        parsed_number: None,
                    },
                    target_filename,
                },
            );
        }
        let number: u32 = match text::parse_u32(request.number.as_str()) {
            Some(n) => n,
            None => {
                let mut why = text::owned("'");
                text::push_text(&mut why, request.number.as_str());
                text::push_text(&mut why, "' is not a valid number");
                return Err(why);
            },
        };
        let extension = match request.current_path.file_extension_text() {
            Some(e) => e,
            None => text::owned("jpg"),
        };
        let suffix: u32 = self.times_given(number);
        collections::counts_insert(&mut self.number_counts, number, suffix + 1);
        let mut target_filename = request.number.clone();
        if suffix == 0 {
            text::push_text(&mut target_filename, ".");
        } else {
            text::push_text(&mut target_filename, " (");
            text::push_decimal(&mut target_filename, suffix as u64 + 1);
            text::push_text(&mut target_filename, ").");
        }
        text::push_text(&mut target_filename, extension.as_str());
        let new_path = request.target_dir.join_text(target_filename.as_str());
        Ok(
            ConfirmMove {
                operation: MoveOperation {
                    original_path: request.current_path,
                    new_path,
                    number: request.number,
                    parsed_number: Some(number),
                },
                target_filename,
            },
        )
    }

    /// Takes the image that is shown off the queue, once its file has been moved,
    /// and remembers the move.
    pub fn record_move(&mut self, done: ConfirmMove)
        requires
            old(self).current_index < old(self).image_paths@.len(),
        ensures
            is_recorded(*old(self), *final(self), done),
    {
        let number = done.operation.number.clone();
        self.undo_stack.push(done.operation);
        let removed = self.image_paths.remove(self.current_index);
        if self.current_index >= self.image_paths.len() && self.current_index > 0 {
            self.current_index = self.current_index - 1;
        }
        self.input_buffer = String::new();
        if self.image_paths.len() == 0 {
            self.status_message = text::owned("All images processed!");
        } else {
            let name = done.target_filename.as_str();
            let mut message = if self.move_to_folder && self.rename_to_number {
                let mut m = text::owned("Moved and renamed to ");
                text::push_text(&mut m, name);
                text::push_text(&mut m, " in ");
                text::push_text(&mut m, number.as_str());
                text::push_text(&mut m, "/");
                m
            } else if self.move_to_folder {
                let mut m = text::owned("Moved to ");
                text::push_text(&mut m, number.as_str());
                text::push_text(&mut m, "/");
                m
            } else {
                let mut m = text::owned("Renamed to ");
                text::push_text(&mut m, name);
                m
            };
            text::push_text(&mut message, ". ");
            text::push_decimal(&mut message, self.image_paths.len() as u64);
            text::push_text(&mut message, " remaining");
            self.status_message = message;
        }
    }

    /// Takes back the last move, where there is one: its file is to go back to
    /// where it was. Whether or not that succeeds, the move is forgotten.
    pub fn undo(&mut self) -> (operation: Result<MoveOperation, String>)
        ensures
            match operation {
                Err(why) => old(self).undo_stack@.len() == 0 && why@ == "Nothing to undo"@
                    && *final(self) == *old(self),
                Ok(op) => is_popped(*old(self), *final(self), op),
            },
    {
        if self.undo_stack.len() == 0 {
            return Err(text::owned("Nothing to undo"));
        }
        match self.undo_stack.pop() {
            Some(op) => {
                assert(self.undo_stack@ =~= old(self).undo_stack@.drop_last());
                Ok(op)
            },
            None => Err(text::owned("Nothing to undo")),
        }
    }

    /// Puts an image back into the queue, where it now stands, once its file has
    /// been moved back, and gives back its number.
    pub fn restore(&mut self, operation: MoveOperation)
        requires
            old(self).wf(),
            old(self).current_index <= old(self).image_paths@.len(),
        ensures
            final(self).wf(),
            is_restored(*old(self), *final(self), operation),
    {
        match operation.parsed_number {
            Some(number) => {
                match collections::counts_get(&self.number_counts, number) {
                    Some(count) => {
                        if count <= 1 {
                            collections::counts_remove(&mut self.number_counts, number);
                        } else {
                            collections::counts_insert(&mut self.number_counts, number, count - 1);
                        }
                    },
                    None => {},
                }
            },
            None => {},
        }
        self.image_paths.insert(self.current_index, operation.original_path);
        let mut message = text::owned("Undid move of ");
        text::push_text(&mut message, operation.number.as_str());
        self.status_message = message;
        proof {
            assert forall|n: u32| #[trigger] self.counts().dom().contains(n) implies self.counts()[n]
                >= 1 by {
                assert(old(self).counts().dom().contains(n));
            }
        }
    }

    /// How many images are done.
    pub open spec fn done_count(&self) -> nat {
        self.undo_stack@.len()
    }

    /// How many images there are, with those still queued.
    pub open spec fn total_count(&self) -> nat {
        self.image_paths@.len() + self.undo_stack@.len()
    }

    /// How many images are done, and how many there are with those still queued.
    pub fn progress(&self) -> (progress: (usize, usize))
        requires
            self.image_paths@.len() + self.undo_stack@.len() <= usize::MAX,
        ensures
            progress.0 == self.done_count(),
            progress.1 == self.total_count(),
    {
        let queued: usize = self.image_paths.len();
        let done: usize = self.undo_stack.len();
        (done, queued + done)
    }

    /// How many images are queued.
    pub fn remaining(&self) -> (count: usize)
        ensures
            count == self.image_paths@.len(),
    {
        self.image_paths.len()
    }
}

/// The image that was shown is off the queue, and its move is remembered.
pub open spec fn is_recorded(
    before: NumberingState,
    after: NumberingState,
    done: ConfirmMove,
) -> bool {
    &&& after.image_paths@ == before.image_paths@.remove(before.current_index as int)
    &&& after.current_index == index_after_removal(
        before.current_index,
        after.image_paths@.len(),
    )
    &&& after.input_buffer@.len() == 0
    &&& after.undo_stack@ == before.undo_stack@.push(done.operation)
    &&& after.status_message@ == moved_message(before, done, after.image_paths@.len())
    &&& after.source_folder == before.source_folder
    &&& after.move_to_folder == before.move_to_folder
    &&& after.rename_to_number == before.rename_to_number
    &&& after.number_counts == before.number_counts
}

/// The last move has been taken back.
pub open spec fn is_popped(
    before: NumberingState,
    after: NumberingState,
    operation: MoveOperation,
) -> bool {
    &&& before.undo_stack@.len() > 0
    &&& operation == before.undo_stack@.last()
    &&& after.undo_stack@ == before.undo_stack@.drop_last()
    &&& after.source_folder == before.source_folder
    &&& after.image_paths == before.image_paths
    &&& after.current_index == before.current_index
    &&& after.input_buffer == before.input_buffer
    &&& after.status_message == before.status_message
    &&& after.move_to_folder == before.move_to_folder
    &&& after.rename_to_number == before.rename_to_number
    &&& after.number_counts == before.number_counts
}

/// The image of a move stands where the queue stands, and its number is given back.
pub open spec fn is_restored(
    before: NumberingState,
    after: NumberingState,
    operation: MoveOperation,
) -> bool {
    &&& after.image_paths@ == before.image_paths@.insert(
        before.current_index as int,
        operation.original_path,
    )
    &&& after.counts() == given_back(before.counts(), operation.parsed_number)
    &&& after.status_message@ == "Undid move of "@ + operation.number@
    &&& after.source_folder == before.source_folder
    &&& after.current_index == before.current_index
    &&& after.input_buffer == before.input_buffer
    &&& after.undo_stack == before.undo_stack
    &&& after.move_to_folder == before.move_to_folder
    &&& after.rename_to_number == before.rename_to_number
}

/// What is said once a file has been moved.
pub open spec fn moved_message(before: NumberingState, done: ConfirmMove, remaining: nat) -> Seq<
    char,
> {
    let number = done.operation.number@;
    let name = done.target_filename@;
    if remaining == 0 {
        "All images processed!"@
    } else {
        let action = if before.move_to_folder && before.rename_to_number {
            "Moved and renamed to "@ + name + " in "@ + number + "/"@
        } else if before.move_to_folder {
            "Moved to "@ + number + "/"@
        } else {
            "Renamed to "@ + name
        };
        action + ". "@ + text::decimal(remaining) + " remaining"@
    }
}

/// Undoing a move that was just confirmed puts the image back, shows it, and
/// leaves the numbers counted as before and the same moves to be undone. The queue
/// is in its old order too, unless the image was the last of several.
pub proof fn undo_reverses_confirm(
    before: NumberingState,
    named: NumberingState,
    moved: NumberingState,
    popped: NumberingState,
    restored: NumberingState,
    done: ConfirmMove,
)
    requires
        before.wf(),
        before.current_index < before.image_paths@.len(),
        done.operation.original_path@ == before.queue()[before.current_index as int],
        done.operation.parsed_number matches Some(n) ==> times(before.counts(), n) < u32::MAX,
        named.image_paths == before.image_paths,
        named.current_index == before.current_index,
        named.undo_stack == before.undo_stack,
        named.counts() == given(before.counts(), done.operation.parsed_number),
        is_recorded(named, moved, done),
        is_popped(moved, popped, done.operation),
        is_restored(popped, restored, done.operation),
    ensures
        restored.undo_stack@ == before.undo_stack@,
        restored.counts() == before.counts(),
        restored.queue().to_multiset() == before.queue().to_multiset(),
        restored.queue()[restored.current_index as int] == before.queue()[
            before.current_index as int],
        before.current_index + 1 < before.queue().len() || before.queue().len() == 1
            ==> restored.queue() == before.queue() && restored.current_index
            == before.current_index,
{
    let i = before.current_index as int;
    let b = before.queue();
    let m = moved.queue();
    let at = moved.current_index as int;
    assert(m =~= b.remove(i));
    assert(restored.queue() =~= m.insert(at, b[i]));
    assert(restored.undo_stack@ =~= before.undo_stack@);
    assert(restored.counts() =~= before.counts());
    assert(b.remove(i).insert(i, b[i]) =~= b);
    if i + 1 < b.len() || b.len() == 1 {
        assert(at == i);
    }
    broadcast use vstd::seq_lib::group_to_multiset_ensures;

    assert(m.insert(at, b[i]).to_multiset() =~= m.to_multiset().insert(b[i]));
    assert(m.insert(i, b[i]).to_multiset() =~= m.to_multiset().insert(b[i]));
}

/// Confirming moves one image from the queued to the done ones, so the total
/// stays as it is, and what is shown next is an image of the queue as long as
/// there is one.
pub proof fn confirm_keeps_the_total(
    before: NumberingState,
    moved: NumberingState,
    done: ConfirmMove,
)
    requires
        before.current_index < before.image_paths@.len(),
        is_recorded(before, moved, done),
    ensures
        moved.image_paths@.len() + moved.undo_stack@.len() == before.image_paths@.len()
            + before.undo_stack@.len(),
        moved.undo_stack@.len() == before.undo_stack@.len() + 1,
        moved.image_paths@.len() > 0 ==> moved.current_index < moved.image_paths@.len(),
        moved.image_paths@.len() == 0 ==> moved.current_index == 0,
{
}

/// Undoing moves one image from the done to the queued ones, so the total stays as
/// it is, and the image is shown.
pub proof fn undo_keeps_the_total(
    before: NumberingState,
    popped: NumberingState,
    restored: NumberingState,
    operation: MoveOperation,
)
    requires
        before.current_index <= before.image_paths@.len(),
        is_popped(before, popped, operation),
        is_restored(popped, restored, operation),
    ensures
        restored.image_paths@.len() + restored.undo_stack@.len() == before.image_paths@.len()
            + before.undo_stack@.len(),
        restored.current_index < restored.image_paths@.len(),
        restored.queue()[restored.current_index as int] == operation.original_path@,
{
}

/// A number was confirmed: its file was given a name, which leaves the queue as it is, and
/// was moved.
pub open spec fn is_confirmed(before: NumberingState, after: NumberingState) -> bool {
    &&& before.current_index < before.image_paths@.len()
    &&& exists|named: NumberingState, done: ConfirmMove|
        {
            &&& named.image_paths == before.image_paths
            &&& named.current_index == before.current_index
            &&& named.undo_stack == before.undo_stack
            &&& #[trigger] is_recorded(named, after, done)
        }
}

/// A move was taken back: it was forgotten, and its image queued again.
pub open spec fn is_undone(before: NumberingState, after: NumberingState) -> bool {
    &&& before.current_index <= before.image_paths@.len()
    &&& exists|popped: NumberingState, operation: MoveOperation| #[trigger]
        is_popped(before, popped, operation) && is_restored(popped, after, operation)
}

/// How many of some steps confirm a number, or undo where `confirm` is false.
pub open spec fn steps_of(confirms: Seq<bool>, confirm: bool) -> nat
    decreases confirms.len(),
{
    if confirms.len() == 0 {
        0
    } else {
        steps_of(confirms.drop_last(), confirm) + if confirms.last() == confirm {
            1nat
        } else {
            0nat
        }
    }
}

/// Whatever is confirmed and undone, in any order, the total stays as it is, and as many
/// more images are done as were confirmed, less those that were undone. The rest is
/// queued.
pub proof fn progress_follows_the_steps(states: Seq<NumberingState>, confirms: Seq<bool>)
    requires
        states.len() == confirms.len() + 1,
        forall|i: int|
            #![trigger confirms[i]]
            0 <= i < confirms.len() ==> if confirms[i] {
                is_confirmed(states[i], states[i + 1])
            } else {
                is_undone(states[i], states[i + 1])
            },
    ensures
        states.last().total_count() == states[0].total_count(),
        states.last().done_count() == states[0].done_count() + steps_of(confirms, true) - steps_of(
            confirms,
            false,
        ),
        states.last().image_paths@.len() == states.last().total_count()
            - states.last().done_count(),
    decreases confirms.len(),
{
    if confirms.len() > 0 {
        let last = confirms.len() - 1;
        let rest = confirms.drop_last();
        assert forall|i: int| #![trigger rest[i]] 0 <= i < rest.len() implies if rest[i] {
            is_confirmed(states.drop_last()[i], states.drop_last()[i + 1])
        } else {
            is_undone(states.drop_last()[i], states.drop_last()[i + 1])
        } by {
            assert(rest[i] == confirms[i]);
        }
        progress_follows_the_steps(states.drop_last(), rest);
        let before = states[last];
        let after = states[last + 1];
        assert(states.drop_last().last() == before);
        assert(states.last() == after);
        if confirms[last] {
            assert(is_confirmed(before, after));
            let (named, done) = choose|named: NumberingState, done: ConfirmMove|
                {
                    &&& named.image_paths == before.image_paths
                    &&& named.current_index == before.current_index
                    &&& named.undo_stack == before.undo_stack
                    &&& #[trigger] is_recorded(named, after, done)
                };
            confirm_keeps_the_total(named, after, done);
        } else {
            assert(is_undone(before, after));
            let (popped, operation) = choose|popped: NumberingState, operation: MoveOperation|
                #[trigger]
                is_popped(before, popped, operation) && is_restored(popped, after, operation);
            undo_keeps_the_total(before, popped, after, operation);
            assert(after.undo_stack@.len() == before.undo_stack@.len() - 1);
        }
    }
}

/// Files that get the same number get different names: the count that goes into
/// the name differs each time.
pub proof fn numbered_names_differ(
    number: Seq<char>,
    extension: Seq<char>,
    i: nat,
    j: nat,
)
    requires
        i != j,
    ensures
        numbered_name(number, i, extension) != numbered_name(number, j, extension),
    decreases i,
{
    reveal_strlit(".");
    reveal_strlit(" (");
    reveal_strlit(").");
    let a = numbered_name(number, i, extension);
    let b = numbered_name(number, j, extension);
    text::decimal_reads_back(i + 1);
    text::decimal_reads_back(j + 1);
    if i > j {
        numbered_names_differ(number, extension, j, i);
    } else if i == 0 {
        assert(b.len() > a.len());
    } else if a == b {
        let start = (number + " ("@).len() as int;
        let tail = (")."@ + extension).len() as int;
        assert(a.len() == start + text::decimal(i + 1).len() + tail);
        assert(b.len() == start + text::decimal(j + 1).len() + tail);
        assert(a.subrange(start, a.len() - tail) =~= text::decimal(i + 1));
        assert(b.subrange(start, b.len() - tail) =~= text::decimal(j + 1));
    }
}

/// The first place of a path in a queue; below zero where it has none.
pub open spec fn place_of(queue: Seq<Seq<u8>>, path: Seq<u8>) -> int
    decreases queue.len(),
{
    if queue.len() == 0 {
        -1
    } else if paths::same_path(queue[0], path) {
        0
    } else {
        let rest = place_of(queue.drop_first(), path);
        if rest < 0 {
            -1
        } else {
            rest + 1
        }
    }
}

proof fn lemma_place_of(queue: Seq<Seq<u8>>, path: Seq<u8>)
    ensures
        -1 <= place_of(queue, path) < queue.len(),
        place_of(queue, path) >= 0 ==> paths::same_path(queue[place_of(queue, path)], path),
        place_of(queue, path) < 0 ==> !paths::lists_path(queue, path),
        forall|i: int|
            0 <= i < place_of(queue, path) ==> !paths::same_path(#[trigger] queue[i], path),
    decreases queue.len(),
{
    if queue.len() > 0 && !paths::same_path(queue[0], path) {
        let rest = queue.drop_first();
        lemma_place_of(rest, path);
        assert forall|i: int| 0 <= i < place_of(queue, path) implies !paths::same_path(
            #[trigger] queue[i],
            path,
        ) by {
            if i > 0 {
                assert(queue[i] == rest[i - 1]);
            }
        }
        if place_of(queue, path) < 0 && paths::lists_path(queue, path) {
            let i = choose|i: int|
                0 <= i < queue.len() && paths::same_path(#[trigger] queue[i], path);
            assert(rest[i - 1] == queue[i]);
        }
    }
}

/// A queue, where it stands, and how many images were taken off it.
pub type Queue = (Seq<Seq<u8>>, usize, nat);

/// The queue after an image was taken off it, if it was there.
pub open spec fn without(queue: Queue, path: Seq<u8>) -> Queue {
    let at = place_of(queue.0, path);
    if at < 0 {
        queue
    } else {
        let left = queue.0.remove(at);
        let index = if at < queue.1 {
            (queue.1 - 1) as usize
        } else {
            index_after_removal(queue.1, left.len())
        };
        (left, index, queue.2 + 1)
    }
}

/// The queue after images were taken off it, one after the other.
pub open spec fn without_all(queue: Queue, paths: Seq<Seq<u8>>) -> Queue
    decreases paths.len(),
{
    if paths.len() == 0 {
        queue
    } else {
        without(without_all(queue, paths.drop_last()), paths.last())
    }
}

/// Whether one of the images that were taken off was the one that was shown.
pub open spec fn takes_current(
    queue: Queue,
    current: Option<Seq<u8>>,
    paths: Seq<Seq<u8>>,
) -> bool
    decreases paths.len(),
{
    if paths.len() == 0 {
        false
    } else {
        let before = without_all(queue, paths.drop_last());
        takes_current(queue, current, paths.drop_last()) || (place_of(before.0, paths.last()) >= 0
            && (current matches Some(c) && paths::same_path(c, paths.last())))
    }
}

/// What is said when images were taken off the queue.
pub open spec fn removed_message(count: nat) -> Seq<char> {
    if count == 1 {
        "Removed 1 already-numbered image from the manual queue"@
    } else {
        "Removed "@ + text::decimal(count)
            + " already-numbered images from the manual queue"@
    }
}

fn find_path(queue: &Vec<FilePath>, path: &FilePath) -> (at: Option<usize>)
    ensures
        match at {
            Some(i) => i < queue@.len() && place_of(paths::paths_view(queue@), path@) == i,
            None => place_of(paths::paths_view(queue@), path@) < 0,
        },
{
    let ghost view = paths::paths_view(queue@);
    let mut i: usize = 0;
    proof {
        assert(view.skip(0) =~= view);
    }
    while i < queue.len()
        invariant
            i <= queue@.len(),
            view == paths::paths_view(queue@),
            place_of(view.skip(i as int), path@) < 0 ==> place_of(view, path@) < 0,
            place_of(view.skip(i as int), path@) >= 0 ==> place_of(view, path@) == i + place_of(
                view.skip(i as int),
                path@,
            ),
        decreases queue@.len() - i,
    {
        proof {
            assert(view.skip(i as int)[0] == queue@[i as int]@);
            assert(view.skip(i as int).drop_first() =~= view.skip(i + 1));
            lemma_place_of(view.skip(i + 1), path@);
        }
        if queue[i].same(path) {
            return Some(i);
        }
        i += 1;
    }
    proof {
        assert(view.skip(i as int).len() == 0);
    }
    None
}

/// The state was left as it is but for the queue.
pub open spec fn only_queue_changed(before: NumberingState, after: NumberingState) -> bool {
    &&& after.source_folder == before.source_folder
    &&& after.undo_stack == before.undo_stack
    &&& after.move_to_folder == before.move_to_folder
    &&& after.rename_to_number == before.rename_to_number
    &&& after.number_counts == before.number_counts
}

impl NumberingState {
    /// The queue, where it stands, and that nothing was taken off it.
    pub open spec fn standing(&self) -> Queue {
        (self.queue(), self.current_index, 0)
    }

    /// The path of the image that is shown.
    pub open spec fn shown_path(&self) -> Option<Seq<u8>> {
        if self.current_index < self.queue().len() {
            Some(self.queue()[self.current_index as int])
        } else {
            None
        }
    }

    /// Takes images off the queue that were numbered elsewhere or are gone. Tells
    /// whether the one that was shown is among them.
    pub fn remove_completed_paths(&mut self, completed: &Vec<FilePath>) -> (removed_current: bool)
        ensures
            only_queue_changed(*old(self), *final(self)),
            ({
                let after = without_all(old(self).standing(), paths::paths_view(completed@));
                &&& final(self).queue() == after.0
                &&& final(self).current_index == after.1
                &&& removed_current == takes_current(
                    old(self).standing(),
                    old(self).shown_path(),
                    paths::paths_view(completed@),
                )
                &&& after.2 == 0 ==> final(self).input_buffer == old(self).input_buffer && final(
                    self).status_message == old(self).status_message
                &&& after.2 > 0 ==> final(self).input_buffer@.len() == 0 && final(
                    self).status_message@ == removed_message(after.2)
            }),
    {
        let current = match self.current_image() {
            Some(path) => Some(path.clone()),
            None => None,
        };
        let ghost start = self.standing();
        let ghost shown = self.shown_path();
        let ghost list = paths::paths_view(completed@);
        let mut removed_current = false;
        let mut removed_count: usize = 0;
        let mut i: usize = 0;
        let ghost initial = *self;
        proof {
            assert(list.take(0) =~= Seq::<Seq<u8>>::empty());
        }
        while i < completed.len()
            invariant
                i <= completed@.len(),
                list == paths::paths_view(completed@),
                only_queue_changed(initial, *self),
                self.input_buffer == initial.input_buffer,
                self.status_message == initial.status_message,
                removed_count <= i,
                without_all(start, list.take(i as int)) == (
                    self.queue(),
                    self.current_index,
                    removed_count as nat,
                ),
                paths::optional_view(current) == shown,
                removed_current == takes_current(start, shown, list.take(i as int)),
            decreases completed@.len() - i,
        {
            let path = &completed[i];
            proof {
                assert(list.take(i + 1).drop_last() =~= list.take(i as int));
                assert(list.take(i + 1).last() == path@);
            }
            let ghost queue = self.queue();
            match find_path(&self.image_paths, path) {
                Some(position) => {
                    let was_shown = match &current {
                        Some(c) => c.same(path),
                        None => false,
                    };
                    if was_shown {
                        removed_current = true;
                    }
                    let gone = self.image_paths.remove(position);
                    removed_count += 1;
                    assert(self.queue() =~= queue.remove(position as int));
                    if position < self.current_index {
                        self.current_index = self.current_index - 1;
                    } else if self.current_index >= self.image_paths.len() && self.current_index
                        > 0 {
                        self.current_index = self.current_index - 1;
                    }
                },
                None => {},
            }
            i += 1;
        }
        assert(list.take(i as int) =~= list);
        if removed_count > 0 {
            self.input_buffer = String::new();
            if removed_count == 1 {
                self.status_message = text::owned(
                    "Removed 1 already-numbered image from the manual queue",
                );
            } else {
                let mut message = text::owned("Removed ");
                text::push_decimal(&mut message, removed_count as u64);
                text::push_text(&mut message, " already-numbered images from the manual queue");
                self.status_message = message;
            }
        }
        removed_current
    }

    /// Shows an image that is to be looked at, if its file is still there. One that
    /// is not queued is put in front. Tells whether it is shown.
    pub fn open_review_image(&mut self, path: FilePath, exists: bool) -> (opened: bool)
        ensures
            opened == exists,
            only_queue_changed(*old(self), *final(self)),
            !exists ==> {
                &&& final(self).image_paths == old(self).image_paths
                &&& final(self).current_index == old(self).current_index
                &&& final(self).input_buffer == old(self).input_buffer
                &&& final(self).status_message@ == "Review image is no longer available: "@
                    + paths::shown(path@)
            },
            exists ==> {
                let at = place_of(old(self).queue(), path@);
                &&& at >= 0 ==> final(self).queue() == old(self).queue() && final(
                    self).current_index == at
                &&& at < 0 ==> final(self).queue() == old(self).queue().insert(0, path@) && final(
                    self).current_index == 0
                &&& final(self).shown_path() matches Some(p) && paths::same_path(p, path@)
                &&& final(self).input_buffer@.len() == 0
                &&& final(self).status_message@ == "Opened review image: "@ + (
                match paths::file_name_text(path@) {
                    Some(name) => name,
                    None => "image"@,
                })
            },
    {
        if !exists {
            let mut message = text::owned("Review image is no longer available: ");
            let shown = path.display_text();
            text::push_text(&mut message, shown.as_str());
            self.status_message = message;
            return false;
        }
        let name = match path.file_name_text() {
            Some(name) => name,
            None => text::owned("image"),
        };
        proof {
            lemma_place_of(self.queue(), path@);
        }
        match find_path(&self.image_paths, &path) {
            Some(index) => {
                self.current_index = index;
            },
            None => {
                let ghost queue = self.queue();
                self.image_paths.insert(0, path);
                assert(self.queue() =~= queue.insert(0, path@));
                self.current_index = 0;
            },
        }
        self.input_buffer = String::new();
        let mut message = text::owned("Opened review image: ");
        text::push_text(&mut message, name.as_str());
        self.status_message = message;
        true
    }

    /// Starts on the images of a folder, or reports why it could not be read. In
    /// that case the queue is emptied, and the rest stays as it is.
    pub fn load_folder(&mut self, dir: FilePath, found: Result<Vec<FilePath>, String>)
        ensures
            final(self).move_to_folder == old(self).move_to_folder,
            final(self).rename_to_number == old(self).rename_to_number,
            final(self).number_counts == old(self).number_counts,
            match found {
                Ok(images) => {
                    &&& final(self).source_folder == Some(dir)
                    &&& final(self).image_paths == images
                    &&& final(self).current_index == 0
                    &&& final(self).undo_stack@.len() == 0
                    &&& final(self).input_buffer@.len() == 0
                    &&& final(self).status_message@ == "Loaded "@ + text::decimal(images@.len())
                        + " images"@
                },
                Err(why) => {
                    &&& final(self).source_folder == old(self).source_folder
                    &&& final(self).image_paths@.len() == 0
                    &&& final(self).current_index == old(self).current_index
                    &&& final(self).undo_stack == old(self).undo_stack
                    &&& final(self).input_buffer == old(self).input_buffer
                    &&& final(self).status_message == why
                },
            },
    {
        match found {
            Ok(images) => {
                let mut message = text::owned("Loaded ");
                text::push_decimal(&mut message, images.len() as u64);
                text::push_text(&mut message, " images");
                self.status_message = message;
                self.source_folder = Some(dir);
                self.image_paths = images;
                self.current_index = 0;
                self.undo_stack.clear();
                self.input_buffer = String::new();
            },
            Err(why) => {
                self.status_message = why;
                self.image_paths.clear();
            },
        }
    }

    /// The images to get ready while one is shown: first those next to it, then
    /// the two after the next one and the one before the previous one.
    pub fn preload_adjacent(&self) -> (lists: (Vec<FilePath>, Vec<FilePath>))
        requires
            self.current_index < self.image_paths@.len(),
        ensures
            paths::paths_view(lists.0@) == at_offsets(
                self.queue(),
                seq![self.current_index - 1, self.current_index + 1],
            ),
            paths::paths_view(lists.1@) == at_offsets(
                self.queue(),
                seq![self.current_index + 2, self.current_index + 3, self.current_index - 2],
            ),
    {
        let index: usize = self.current_index;
        let len: usize = self.image_paths.len();
        let ghost queue = self.queue();
        let ghost i = index as int;
        let mut priority: Vec<FilePath> = Vec::new();
        if index >= 1 {
            priority.push(self.image_paths[index - 1].clone());
        }
        if len - index > 1 {
            priority.push(self.image_paths[index + 1].clone());
        }
        let mut secondary: Vec<FilePath> = Vec::new();
        if len - index > 2 {
            secondary.push(self.image_paths[index + 2].clone());
        }
        if len - index > 3 {
            secondary.push(self.image_paths[index + 3].clone());
        }
        if index >= 2 {
            secondary.push(self.image_paths[index - 2].clone());
        }
        proof {
            reveal_with_fuel(at_offsets, 4);
            assert(seq![i - 1, i + 1].drop_last() =~= seq![i - 1]);
            assert(seq![i - 1].drop_last() =~= Seq::<int>::empty());
            assert(seq![i + 2, i + 3, i - 2].drop_last() =~= seq![i + 2, i + 3]);
            assert(seq![i + 2, i + 3].drop_last() =~= seq![i + 2]);
            assert(seq![i + 2].drop_last() =~= Seq::<int>::empty());
            assert(paths::paths_view(priority@) =~= at_offsets(queue, seq![i - 1, i + 1]));
            assert(paths::paths_view(secondary@) =~= at_offsets(
                queue,
                seq![i + 2, i + 3, i - 2],
            ));
        }
        (priority, secondary)
    }
}

/// The images that stand at some places of a queue, as far as it has such places.
pub open spec fn at_offsets(queue: Seq<Seq<u8>>, places: Seq<int>) -> Seq<Seq<u8>>
    decreases places.len(),
{
    if places.len() == 0 {
        Seq::empty()
    } else {
        let before = at_offsets(queue, places.drop_last());
        if 0 <= places.last() < queue.len() {
            before.push(queue[places.last()])
        } else {
            before
        }
    }
}

/// As long as the image that is shown is not taken off, it stays the one that is
/// shown; in any case the queue stands at one of its images while it has any.
pub proof fn removal_keeps_what_is_shown(queue: Queue, completed: Seq<Seq<u8>>)
    requires
        paths::all_differ(queue.0),
        queue.1 < queue.0.len(),
    ensures
        paths::all_differ(without_all(queue, completed).0),
        without_all(queue, completed).0.len() > 0 ==> without_all(queue, completed).1
            < without_all(queue, completed).0.len(),
        !paths::lists_path(completed, queue.0[queue.1 as int]) ==> without_all(queue, completed).1
            < without_all(queue, completed).0.len() && without_all(queue, completed).0[without_all(
            queue,
            completed,
        ).1 as int] == queue.0[queue.1 as int],
        without_all(queue, completed).0.len() + without_all(queue, completed).2
            == queue.0.len() + queue.2,
    decreases completed.len(),
{
    if completed.len() > 0 {
        let rest = completed.drop_last();
        removal_keeps_what_is_shown(queue, rest);
        let before = without_all(queue, rest);
        let path = completed.last();
        let after = without(before, path);
        lemma_place_of(before.0, path);
        let at = place_of(before.0, path);
        if at >= 0 {
            assert(after.0 =~= before.0.remove(at));
            assert forall|i: int, j: int| 0 <= i < j < after.0.len() implies !paths::same_path(
                #[trigger] after.0[i],
                #[trigger] after.0[j],
            ) by {
                let bi = if i < at {
                    i
                } else {
                    i + 1
                };
                let bj = if j < at {
                    j
                } else {
                    j + 1
                };
                assert(after.0[i] == before.0[bi] && after.0[j] == before.0[bj]);
            }
        }
        let current = queue.0[queue.1 as int];
        if !paths::lists_path(completed, current) {
            assert(!paths::lists_path(rest, current)) by {
                if paths::lists_path(rest, current) {
                    let k = choose|k: int|
                        0 <= k < rest.len() && paths::same_path(#[trigger] rest[k], current);
                    assert(completed[k] == rest[k]);
                }
            }
            assert(completed[completed.len() - 1] == path);
            assert(!paths::same_path(path, current));
        }
    }
}

impl NumberingState {
    /// How far the numbering is, for the toolbar.
    pub open spec fn progress_line(&self) -> Seq<char> {
        "Progress: "@ + text::decimal(self.undo_stack@.len()) + "/"@ + text::decimal(
            self.image_paths@.len() + self.undo_stack@.len(),
        ) + " ("@ + text::decimal(self.image_paths@.len()) + " remaining)"@
    }

    /// How far the numbering is, for the toolbar.
    pub fn progress_text(&self) -> (line: String)
        requires
            self.image_paths@.len() + self.undo_stack@.len() <= usize::MAX,
        ensures
            line@ == self.progress_line(),
    {
        let (done, total) = self.progress();
        let mut line = text::owned("Progress: ");
        text::push_decimal(&mut line, done as u64);
        text::push_text(&mut line, "/");
        text::push_decimal(&mut line, total as u64);
        text::push_text(&mut line, " (");
        text::push_decimal(&mut line, self.remaining() as u64);
        text::push_text(&mut line, " remaining)");
        line
    }
}

/// Whether a key undoes the last move: Z with the control or the platform key.
pub fn is_undo_key(control: bool, platform: bool, key: &str) -> (is: bool)
    ensures
        is == ((control || platform) && text::lowered(key@) == "z"@),
{
    if !control && !platform {
        return false;
    }
    let key = text::to_lower(key);
    text::same_text(key.as_str(), "z")
}

/// The first file with a number is named by it alone. The second one has a two in brackets
/// behind the number, the third one a three, and so on. All of them keep their extension.
pub proof fn files_of_a_number_are_counted(number: Seq<char>, count: nat, extension: Seq<char>)
    ensures
        numbered_name(number, 0, extension) == number + seq!['.'] + extension,
        count > 0 ==> numbered_name(number, count, extension) == number + seq![' ', '(']
            + text::decimal(count + 1) + seq![')', '.'] + extension,
{
    reveal_strlit(".");
    reveal_strlit(" (");
    reveal_strlit(").");
    assert("."@ =~= seq!['.']);
    assert(" ("@ =~= seq![' ', '(']);
    assert(")."@ =~= seq![')', '.']);
}

/// A file that is renamed keeps its extension, and gets `jpg` where it has none.
pub proof fn extensions_are_kept(path: Seq<u8>)
    ensures
        paths::file_extension_text(path) matches Some(e) ==> kept_extension(path) == e,
        paths::file_extension_text(path) is None ==> kept_extension(path) == seq!['j', 'p', 'g'],
{
    reveal_strlit("jpg");
    assert("jpg"@ =~= seq!['j', 'p', 'g']);
}

/// Giving a number counts it once more, and giving it back once less, down to none. No other
/// number is counted differently, and without a number nothing is.
pub proof fn numbers_are_counted_each_for_itself(counts: Map<u32, u32>, n: u32, other: u32)
    requires
        times(counts, n) < u32::MAX,
    ensures
        times(given(counts, Some(n)), n) == times(counts, n) + 1,
        other != n ==> times(given(counts, Some(n)), other) == times(counts, other),
        times(counts, n) > 0 ==> times(given_back(counts, Some(n)), n) == times(counts, n) - 1,
        times(counts, n) == 0 ==> times(given_back(counts, Some(n)), n) == 0,
        other != n ==> times(given_back(counts, Some(n)), other) == times(counts, other),
        given(counts, None) == counts,
        given_back(counts, None) == counts,
        times(Map::empty(), n) == 0,
{
}

/// A number can be confirmed just when something but white space was typed, the file is to be
/// moved or renamed, a folder is open and an image is shown. What is missing first is told.
pub proof fn confirming_needs_number_action_folder_and_image(state: NumberingState)
    ensures
        ({
            let typed = text::trimmed(state.input_buffer@).len() > 0;
            let action = state.move_to_folder || state.rename_to_number;
            let folder = state.source_folder is Some;
            let image = state.current_index < state.image_paths@.len();
            &&& confirm_fault(state) is None <==> typed && action && folder && image
            &&& !typed ==> confirm_fault(state) == Some("Please enter a number"@)
            &&& typed && !action ==> confirm_fault(state) == Some(
                "Enable 'Move to folder' or 'Rename to number' (or both)"@,
            )
            &&& typed && action && !folder ==> confirm_fault(state) == Some("No folder selected"@)
            &&& typed && action && folder && !image ==> confirm_fault(state) == Some(
                "No image selected"@,
            )
        }),
{
}

/// Once an image has been numbered, the one behind it is shown; where it was the last, the
/// one before it. All other images stay queued in their order.
pub proof fn the_next_image_is_shown(
    before: NumberingState,
    after: NumberingState,
    done: ConfirmMove,
    i: int,
)
    requires
        before.current_index < before.image_paths@.len(),
        is_recorded(before, after, done),
    ensures
        after.queue().len() == before.queue().len() - 1,
        0 <= i < before.current_index ==> after.queue()[i] == before.queue()[i],
        before.current_index < i < before.queue().len() ==> after.queue()[i - 1]
            == before.queue()[i],
        before.current_index + 1 < before.queue().len() ==> after.shown_path() == Some(
            before.queue()[before.current_index + 1],
        ),
        0 < before.current_index == before.queue().len() - 1 ==> after.shown_path() == Some(
            before.queue()[before.current_index - 1],
        ),
        before.queue().len() == 1 ==> after.shown_path() is None,
        after.undo_stack@.last() == done.operation,
        after.input_buffer@.len() == 0,
{
}

/// What was done to a file is told: whether it was moved, renamed or both, and how many
/// images are left.
pub proof fn moves_are_told(before: NumberingState, done: ConfirmMove, remaining: nat)
    ensures
        moved_message(before, done, 0) == "All images processed!"@,
        remaining > 0 ==> ({
            let left = ". "@ + text::decimal(remaining) + " remaining"@;
            let number = done.operation.number@;
            let name = done.target_filename@;
            let message = moved_message(before, done, remaining);
            &&& before.move_to_folder && !before.rename_to_number ==> message == "Moved to "@
                + number + "/"@ + left
            &&& !before.move_to_folder ==> message == "Renamed to "@ + name + left
            &&& before.move_to_folder && before.rename_to_number ==> message
                == "Moved and renamed to "@ + name + " in "@ + number + "/"@ + left
        }),
{
    if remaining > 0 {
        let left = ". "@ + text::decimal(remaining) + " remaining"@;
        let number = done.operation.number@;
        let name = done.target_filename@;
        let message = moved_message(before, done, remaining);
        if before.move_to_folder && before.rename_to_number {
            assert(message =~= "Moved and renamed to "@ + name + " in "@ + number + "/"@ + left);
        } else if before.move_to_folder {
            assert(message =~= "Moved to "@ + number + "/"@ + left);
        } else {
            assert(message =~= "Renamed to "@ + name + left);
        }
    }
}

/// A path is found at the first place where the queue has it, in whatever way it is written,
/// and nowhere just when the queue does not have it.
pub proof fn paths_are_found_at_their_first_place(queue: Seq<Seq<u8>>, path: Seq<u8>)
    ensures
        place_of(queue, path) < queue.len(),
        place_of(queue, path) >= 0 <==> paths::lists_path(queue, path),
        place_of(queue, path) >= 0 ==> paths::same_path(queue[place_of(queue, path)], path),
        forall|i: int|
            0 <= i < place_of(queue, path) ==> !paths::same_path(#[trigger] queue[i], path),
{
    lemma_place_of(queue, path);
    if place_of(queue, path) >= 0 {
        assert(paths::same_path(queue[place_of(queue, path)], path));
    }
}

/// Just the images that are named are taken off the queue: one that is named is no longer in
/// it, and every other one still is.
pub proof fn just_the_named_images_are_taken_off(queue: Queue, completed: Seq<Seq<u8>>, image: Seq<u8>)
    requires
        paths::all_differ(queue.0),
        queue.1 < queue.0.len(),
    ensures
        paths::lists_path(without_all(queue, completed).0, image) <==> paths::lists_path(
            queue.0,
            image,
        ) && !paths::lists_path(completed, image),
    decreases completed.len(),
{
    if completed.len() > 0 {
        let rest = completed.drop_last();
        let path = completed.last();
        just_the_named_images_are_taken_off(queue, rest, image);
        removal_keeps_what_is_shown(queue, rest);
        let before = without_all(queue, rest);
        let after = without(before, path);
        lemma_place_of(before.0, path);
        let at = place_of(before.0, path);
        if paths::lists_path(rest, image) {
            let k = choose|k: int|
                0 <= k < rest.len() && paths::same_path(#[trigger] rest[k], image);
            assert(paths::same_path(completed[k], image));
        }
        if paths::lists_path(completed, image) && !paths::lists_path(rest, image) {
            let k = choose|k: int|
                0 <= k < completed.len() && paths::same_path(#[trigger] completed[k], image);
            if k < rest.len() {
                assert(paths::same_path(rest[k], image));
            }
            assert(paths::same_path(path, image));
        }
        if paths::same_path(path, image) {
            assert(paths::same_path(completed[completed.len() - 1], image));
        }
        if paths::lists_path(after.0, image) {
            let i = choose|i: int|
                0 <= i < after.0.len() && paths::same_path(#[trigger] after.0[i], image);
            if at >= 0 {
                let bi = if i < at {
                    i
                } else {
                    i + 1
                };
                assert(after.0[i] == before.0[bi]);
                assert(paths::same_path(before.0[bi], image));
                if paths::same_path(path, image) {
                    assert(paths::same_path(before.0[bi], before.0[at]));
                    assert(false);
                }
            } else {
                assert(paths::same_path(before.0[i], image));
                if paths::same_path(path, image) {
                    assert(paths::same_path(before.0[i], path));
                    assert(paths::lists_path(before.0, path));
                }
            }
        }
        if paths::lists_path(before.0, image) && !paths::same_path(path, image) {
            let i = choose|i: int|
                0 <= i < before.0.len() && paths::same_path(#[trigger] before.0[i], image);
            if at >= 0 {
                assert(i != at);
                let ai = if i < at {
                    i
                } else {
                    i - 1
                };
                assert(after.0[ai] == before.0[i]);
                assert(paths::same_path(after.0[ai], image));
            }
        }
    } else {
        assert(!paths::lists_path(completed, image));
    }
}

/// The image that is shown counts as taken off just when it is one of those that are named.
pub proof fn the_shown_image_is_told_of(queue: Queue, completed: Seq<Seq<u8>>)
    requires
        paths::all_differ(queue.0),
        queue.1 < queue.0.len(),
    ensures
        takes_current(queue, Some(queue.0[queue.1 as int]), completed) <==> paths::lists_path(
            completed,
            queue.0[queue.1 as int],
        ),
        !takes_current(queue, None, completed),
    decreases completed.len(),
{
    let current = queue.0[queue.1 as int];
    assert(paths::same_path(queue.0[queue.1 as int], current));
    if completed.len() > 0 {
        let rest = completed.drop_last();
        let path = completed.last();
        the_shown_image_is_told_of(queue, rest);
        just_the_named_images_are_taken_off(queue, rest, current);
        let before = without_all(queue, rest);
        lemma_place_of(before.0, path);
        if paths::lists_path(rest, current) {
            let k = choose|k: int|
                0 <= k < rest.len() && paths::same_path(#[trigger] rest[k], current);
            assert(paths::same_path(completed[k], current));
        } else {
            if paths::lists_path(completed, current) {
                let k = choose|k: int|
                    0 <= k < completed.len() && paths::same_path(#[trigger] completed[k], current);
                if k < rest.len() {
                    assert(paths::same_path(rest[k], current));
                }
                assert(paths::same_path(path, current));
                let i = choose|i: int|
                    0 <= i < before.0.len() && paths::same_path(#[trigger] before.0[i], current);
                assert(paths::same_path(before.0[i], path));
                assert(paths::lists_path(before.0, path));
            }
            if paths::same_path(current, path) {
                assert(paths::same_path(completed[completed.len() - 1], current));
            }
        }
    } else {
        assert(!paths::lists_path(completed, current));
    }
}

/// How many images were taken off is told, one in the singular.
pub proof fn removals_are_told(count: nat)
    ensures
        removed_message(1) == "Removed 1 already-numbered image from the manual queue"@,
        count != 1 ==> removed_message(count) == "Removed "@ + text::decimal(count)
            + " already-numbered images from the manual queue"@,
{
}

/// The images at some places are those at the first of them and then those at the rest, and
/// a place that the queue does not have stands for none.
pub proof fn images_are_taken_place_by_place(queue: Seq<Seq<u8>>, a: Seq<int>, b: Seq<int>, i: int)
    ensures
        at_offsets(queue, a + b) == at_offsets(queue, a) + at_offsets(queue, b),
        0 <= i < queue.len() ==> at_offsets(queue, seq![i]) == seq![queue[i]],
        i < 0 || i >= queue.len() ==> at_offsets(queue, seq![i]).len() == 0,
    decreases b.len(),
{
    reveal_with_fuel(at_offsets, 2);
    assert(seq![i].drop_last() =~= Seq::<int>::empty());
    assert(Seq::<Seq<u8>>::empty().push(queue[i]) =~= seq![queue[i]]);
    if b.len() == 0 {
        assert(a + b =~= a);
        assert(at_offsets(queue, a) + at_offsets(queue, b) =~= at_offsets(queue, a));
    } else {
        images_are_taken_place_by_place(queue, a, b.drop_last(), i);
        assert((a + b).drop_last() =~= a + b.drop_last());
        assert((a + b).last() == b.last());
        assert(at_offsets(queue, a + b) =~= at_offsets(queue, a) + at_offsets(queue, b));
    }
}

/// The toolbar tells how many images are done, out of how many, and how many are left.
pub proof fn the_toolbar_tells_the_progress(state: NumberingState)
    ensures
        state.progress_line() == "Progress: "@ + text::decimal(state.done_count()) + "/"@
            + text::decimal(state.total_count()) + " ("@ + text::decimal(
            (state.total_count() - state.done_count()) as nat,
        ) + " remaining)"@,
        state.total_count() - state.done_count() == state.queue().len(),
        state.done_count() == state.undo_stack@.len(),
{
}

/// Nothing but what belongs to a step changes in it. Confirming empties what was typed; to
/// forget a move changes the list of moves alone; to queue its image again changes the queue
/// and the counts; and none of them, nor the removal of images that were numbered elsewhere,
/// changes the folder or what is to be done with the files.
pub proof fn steps_change_only_what_belongs_to_them(
    before: NumberingState,
    after: NumberingState,
    done: ConfirmMove,
    operation: MoveOperation,
)
    ensures
        is_recorded(before, after, done) || is_popped(before, after, operation) || is_restored(
            before,
            after,
            operation,
        ) || only_queue_changed(before, after) ==> after.source_folder == before.source_folder
            && after.move_to_folder == before.move_to_folder && after.rename_to_number
            == before.rename_to_number,
        is_recorded(before, after, done) ==> after.input_buffer@.len() == 0 && after.number_counts
            == before.number_counts && after.undo_stack@.len() == before.undo_stack@.len() + 1
            && after.undo_stack@.last() == done.operation && after.undo_stack@.drop_last()
            == before.undo_stack@,
        is_popped(before, after, operation) ==> after.image_paths == before.image_paths
            && after.current_index == before.current_index && after.number_counts
            == before.number_counts && after.input_buffer == before.input_buffer
            && after.status_message == before.status_message && before.undo_stack@
            == after.undo_stack@.push(operation),
        is_restored(before, after, operation) ==> after.input_buffer == before.input_buffer
            && after.undo_stack == before.undo_stack && after.current_index
            == before.current_index && after.status_message@ == "Undid move of "@
            + operation.number@,
        only_queue_changed(before, after) ==> after.undo_stack == before.undo_stack
            && after.number_counts == before.number_counts,
{
    if is_recorded(before, after, done) {
        assert(after.undo_stack@.drop_last() =~= before.undo_stack@);
    }
    if is_popped(before, after, operation) {
        assert(after.undo_stack@.push(operation) =~= before.undo_stack@);
    }
}

/// A state whose images are about to be looked through stands where it is, with nothing
/// taken off so far. The image that is shown is the one at that place, if there is one.
pub proof fn nothing_is_taken_off_at_first(state: NumberingState)
    ensures
        state.standing() == (state.queue(), state.current_index, 0nat),
        state.current_index < state.queue().len() ==> state.shown_path() == Some(
            state.queue()[state.current_index as int],
        ),
        state.current_index >= state.queue().len() ==> state.shown_path() is None,
{
}

}
