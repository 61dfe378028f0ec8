//! Remarks that are kept with a decision: pieces of text, and numbers that are
//! to be written with a fixed count of decimal places.

use crate::score::Score;
use crate::text;
use vstd::prelude::*;

verus! {

/// A number and how many decimal places it is written with.
#[derive(Clone, Copy, Debug, PartialEq, Eq, Structural)]
pub struct Fixed {
    pub score: Score,
    pub places: u8,
}

/// A piece of a remark: words, or a number where there is one.
#[derive(Debug)]
pub struct NotePart {
    pub words: String,
    pub number: Option<Fixed>,
}

/// What a piece says.
pub type Saying = (Seq<char>, Option<Fixed>);

/// A piece that is text.
pub open spec fn words(s: Seq<char>) -> Saying {
    (s, None)
}

/// A piece that is a number.
pub open spec fn fixed(score: Score, places: u8) -> Saying {
    (Seq::<char>::empty(), Some(Fixed { score, places }))
}

/// A remark: its pieces in order.
#[derive(Debug)]
pub struct Note {
    pub parts: Vec<NotePart>,
}

impl View for Note {
    type V = Seq<Saying>;

    open spec fn view(&self) -> Seq<Saying> {
        Seq::new(self.parts@.len(), |i: int| (self.parts@[i].words@, self.parts@[i].number))
    }
}

impl Clone for Note {
    fn clone(&self) -> (copy: Self)
        ensures
            copy@ == self@,
    {
        let mut copy = Note::new();
        let mut i: usize = 0;
        assert(self@.take(0) =~= Seq::<Saying>::empty());
        while i < self.parts.len()
            invariant
                i <= self.parts@.len(),
                copy@ == self@.take(i as int),
            decreases self.parts@.len() - i,
        {
            let ghost before = copy@;
            let words = self.parts[i].words.clone();
            copy.parts.push(NotePart { words, number: self.parts[i].number });
            proof {
                assert(copy@ =~= before.push(self@[i as int]));
                assert(self@.take(i + 1) =~= self@.take(i as int).push(self@[i as int]));
            }
            i += 1;
        }
        assert(self@.take(i as int) =~= self@);
        copy
    }
}

impl Note {
    /// A remark that says nothing yet.
    pub fn new() -> (note: Note)
        ensures
            note@ == Seq::<Saying>::empty(),
    {
        let note = Note { parts: Vec::new() };
        assert(note@ =~= Seq::<Saying>::empty());
        note
    }

    /// Adds text.
    pub fn say(&mut self, piece: &str)
        ensures
            final(self)@ == old(self)@.push(words(piece@)),
    {
        self.parts.push(NotePart { words: text::owned(piece), number: None });
        assert(self@ =~= old(self)@.push(words(piece@)));
    }

    /// Adds a number.
    pub fn write(&mut self, score: Score, places: u8)
        ensures
            final(self)@ == old(self)@.push(fixed(score, places)),
    {
        self.parts.push(NotePart { words: String::new(), number: Some(Fixed { score, places }) });
        proof {
            assert(self.parts@.last().words@ =~= Seq::<char>::empty());
            assert(self@ =~= old(self)@.push(fixed(score, places)));
        }
    }

    /// A remark of text alone.
    pub fn of_text(piece: &str) -> (note: Note)
        ensures
            note@ == seq![words(piece@)],
    {
        let mut note = Note::new();
        note.say(piece);
        assert(note@ =~= seq![words(piece@)]);
        note
    }
}

/// A piece tells its words, or its number and how it is written: no two pieces that differ in
/// these are the same.
pub proof fn pieces_tell_what_they_say(a: Seq<char>, b: Seq<char>, x: Score, y: Score, m: u8, n: u8)
    ensures
        words(a) == words(b) <==> a == b,
        fixed(x, m) == fixed(y, n) <==> x == y && m == n,
        words(a) != fixed(x, m),
{
    assert(words(a).0 == a);
    assert(words(b).0 == b);
    assert(words(a).1 is None);
    assert(fixed(x, m).1 == Some(Fixed { score: x, places: m }));
    assert(fixed(y, n).1 == Some(Fixed { score: y, places: n }));
}

}
