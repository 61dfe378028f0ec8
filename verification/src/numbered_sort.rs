//! Sorting files into folders by the number that their names start with.

use crate::paths::FilePath;
use crate::text;
use vstd::prelude::*;

verus! {

/// How files with a number in their name get into the folders of their numbers.
#[derive(Clone, Copy, Debug, PartialEq, Eq, Structural)]
pub enum NumberedSortMode {
    Copy,
    Move,
}

/// A folder of numbered files that is to be sorted.
#[derive(Debug)]
pub struct NumberedSortConfig {
    pub source_dir: FilePath,
    pub mode: NumberedSortMode,
}

/// What became of a numbered file.
#[derive(Debug)]
pub struct NumberedSortResult {
    pub source: FilePath,
    pub destination: Option<FilePath>,
    pub number: Option<String>,
    pub success: bool,
    pub error: Option<String>,
}

/// Counts over the files of a folder.
#[derive(Clone, Copy, Debug, PartialEq, Eq, Structural)]
pub struct NumberedSortSummary {
    pub discovered: usize,
    pub sorted: usize,
    pub failed: usize,
    pub skipped: usize,
    pub folders_created: usize,
}

/// What came of one file of a folder.
#[derive(Clone, Copy, Debug, PartialEq, Eq, Structural)]
pub enum NumberedOutcome {
    /// Its name starts with no number.
    Skipped,
    /// It is in the folder of its number, which may have been made for it.
    Sorted { new_folder: bool },
    /// It could not be sorted.
    Failed,
}

impl NumberedSortSummary {
    /// No more files are counted than were found, and no more folders than files.
    pub open spec fn wf(&self) -> bool {
        &&& self.counted() <= self.discovered
        &&& self.folders_created <= self.sorted
    }

    /// How many files are counted.
    pub open spec fn counted(&self) -> int {
        self.sorted + self.failed + self.skipped
    }

    /// Nothing is counted yet of the files that were found.
    pub fn begin(discovered: usize) -> (summary: NumberedSortSummary)
        ensures
            summary.wf(),
            summary == (NumberedSortSummary {
                discovered,
                sorted: 0,
                failed: 0,
                skipped: 0,
                folders_created: 0,
            }),
    {
        NumberedSortSummary { discovered, sorted: 0, failed: 0, skipped: 0, folders_created: 0 }
    }

    /// Counts a file under what came of it.
    pub fn count(&mut self, outcome: NumberedOutcome)
        requires
            old(self).wf(),
            old(self).counted() < old(self).discovered,
        ensures
            final(self).wf(),
            final(self).counted() == old(self).counted() + 1,
            *final(self) == (match outcome {
                NumberedOutcome::Skipped => NumberedSortSummary {
                    skipped: (old(self).skipped + 1) as usize,
                    ..*old(self)
                },
                NumberedOutcome::Failed => NumberedSortSummary {
                    failed: (old(self).failed + 1) as usize,
                    ..*old(self)
                },
                NumberedOutcome::Sorted { new_folder } => NumberedSortSummary {
                    sorted: (old(self).sorted + 1) as usize,
                    folders_created: (old(self).folders_created + if new_folder {
                        1int
                    } else {
                        0int
                    }) as usize,
                    ..*old(self)
                },
            }),
    {
        match outcome {
            NumberedOutcome::Skipped => {
                self.skipped = self.skipped + 1;
            },
            NumberedOutcome::Failed => {
                self.failed = self.failed + 1;
            },
            NumberedOutcome::Sorted { new_folder } => {
                self.sorted = self.sorted + 1;
                if new_folder {
                    self.folders_created = self.folders_created + 1;
                }
            },
        }
    }
}

/// How many digits a text starts with.
pub open spec fn leading_digits(s: Seq<char>) -> nat
    decreases s.len(),
{
    if s.len() > 0 && text::is_digit(s[0]) {
        1 + leading_digits(s.drop_first())
    } else {
        0
    }
}

/// The number that a file name starts with.
pub open spec fn number_of(name: Seq<char>) -> Option<Seq<char>> {
    if leading_digits(name) == 0 {
        None
    } else {
        Some(name.take(leading_digits(name) as int))
    }
}

/// The folder that a file is sorted into: the number that its name starts with.
pub fn leading_number(name: &str) -> (number: Option<String>)
    ensures
        text::optional_text(number) == number_of(name@),
{
    let chars = text::chars_of(name);
    let mut digits: usize = 0;
    assert(name@.skip(0) =~= name@);
    while digits < chars.len() && '0' <= chars[digits] && chars[digits] <= '9'
        invariant
            digits <= chars@.len(),
            chars@ == name@,
            leading_digits(name@) == digits + leading_digits(name@.skip(digits as int)),
        ensures
            digits <= chars@.len(),
            leading_digits(name@) == digits,
        decreases chars@.len() - digits,
    {
        assert(name@.skip(digits as int).drop_first() =~= name@.skip(digits + 1));
        digits += 1;
    }
    if digits == 0 {
        return None;
    }
    let mut number = String::new();
    let mut i: usize = 0;
    while i < digits
        invariant
            i <= digits <= chars@.len(),
            chars@ == name@,
            number@ == name@.take(i as int),
        decreases digits - i,
    {
        number.push(chars[i]);
        assert(name@.take(i + 1) =~= name@.take(i as int).push(name@[i as int]));
        i += 1;
    }
    Some(number)
}

proof fn lemma_run_of_digits(number: Seq<char>, rest: Seq<char>)
    requires
        text::all_digits(number),
        rest.len() == 0 || !text::is_digit(rest[0]),
    ensures
        leading_digits(number + rest) == number.len(),
    decreases number.len(),
{
    if number.len() == 0 {
        assert(number + rest =~= rest);
    } else {
        assert((number + rest).drop_first() =~= number.drop_first() + rest);
        assert((number + rest)[0] == number[0]);
        lemma_run_of_digits(number.drop_first(), rest);
    }
}

/// All files that are named after a number, whatever follows it, are sorted into one
/// folder, as long as what follows does not start with a digit.
pub proof fn files_of_a_number_stay_together(number: Seq<char>, rest: Seq<char>)
    requires
        number.len() > 0,
        text::all_digits(number),
        rest.len() == 0 || !text::is_digit(rest[0]),
    ensures
        number_of(number + rest) == Some(number),
{
    lemma_run_of_digits(number, rest);
    assert((number + rest).take(number.len() as int) =~= number);
}

proof fn lemma_digits_inside(s: Seq<char>)
    ensures
        leading_digits(s) <= s.len(),
    decreases s.len(),
{
    if s.len() > 0 && text::is_digit(s[0]) {
        lemma_digits_inside(s.drop_first());
    }
}

/// A file whose name does not start with a digit has no number; any other one has, and it
/// is the longest run of digits that the name starts with.
pub proof fn numbers_are_leading_digits(name: Seq<char>)
    ensures
        number_of(name) is None <==> name.len() == 0 || !('0' <= name[0] <= '9'),
        number_of(name) matches Some(number) ==> {
            &&& 0 < number.len() <= name.len()
            &&& number == name.take(number.len() as int)
            &&& forall|i: int| 0 <= i < number.len() ==> '0' <= #[trigger] number[i] <= '9'
            &&& number.len() < name.len() ==> !('0' <= name[number.len() as int] <= '9')
        },
    decreases name.len(),
{
    if name.len() > 0 && text::is_digit(name[0]) {
        let rest = name.drop_first();
        numbers_are_leading_digits(rest);
        lemma_digits_inside(name);
        lemma_digits_inside(rest);
        let number = name.take(leading_digits(name) as int);
        if let Some(tail) = number_of(rest) {
            assert forall|i: int| 0 <= i < number.len() implies '0' <= #[trigger] number[i] <= '9' by {
                if i > 0 {
                    assert(number[i] == tail[i - 1]);
                }
            }
            if number.len() < name.len() {
                assert(name[number.len() as int] == rest[tail.len() as int]);
            }
        } else if name.len() > 1 {
            assert(name[1] == rest[0]);
        }
    }
}

}
