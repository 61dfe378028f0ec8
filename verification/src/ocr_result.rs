//! What text recognition found in an image.

use crate::score::Score;
use crate::text;
use vstd::prelude::*;

verus! {

/// A piece of text that was found, and how sure that is.
#[derive(Debug)]
pub struct Detection {
    pub text: String,
    pub confidence: Score,
}

/// A number that was read, how sure that is, and everything that was found.
#[derive(Debug)]
pub struct OcrResult {
    pub text: String,
    pub confidence: Score,
    pub all_detections: Vec<Detection>,
}

impl Clone for Detection {
    fn clone(&self) -> (copy: Self)
        ensures
            copy == *self,
    {
        Detection { text: self.text.clone(), confidence: self.confidence }
    }
}

impl Clone for OcrResult {
    fn clone(&self) -> (copy: Self)
        ensures
            copy.text == self.text,
            copy.confidence == self.confidence,
            copy.all_detections@ == self.all_detections@,
    {
        OcrResult {
            text: self.text.clone(),
            confidence: self.confidence,
            all_detections: copy_detections(&self.all_detections),
        }
    }
}

/// A copy of a list of detections.
pub fn copy_detections(detections: &Vec<Detection>) -> (copy: Vec<Detection>)
    ensures
        copy@ == detections@,
{
    let mut copy: Vec<Detection> = Vec::new();
    let mut i: usize = 0;
    while i < detections.len()
        invariant
            i <= detections@.len(),
            copy@ == detections@.take(i as int),
        decreases detections@.len() - i,
    {
        copy.push(detections[i].clone());
        assert(detections@.take(i + 1) =~= detections@.take(i as int).push(detections@[i as int]));
        i += 1;
    }
    assert(detections@.take(i as int) =~= detections@);
    copy
}

/// The texts of detections.
pub open spec fn detected_texts(detections: Seq<Detection>) -> Seq<Seq<char>> {
    Seq::new(detections.len(), |i: int| detections[i].text@)
}

impl OcrResult {
    /// All text that was found, with spaces between; the number itself where
    /// nothing else is recorded.
    pub open spec fn raw(&self) -> Seq<char> {
        if self.all_detections@.len() == 0 {
            self.text@
        } else {
            text::joined(detected_texts(self.all_detections@), " "@)
        }
    }

    /// All text that was found.
    pub fn raw_text(&self) -> (raw: String)
        ensures
            raw@ == self.raw(),
    {
        if self.all_detections.len() == 0 {
            return self.text.clone();
        }
        let mut list: Vec<String> = Vec::new();
        let mut i: usize = 0;
        while i < self.all_detections.len()
            invariant
                i <= self.all_detections@.len(),
                list@.len() == i,
                forall|j: int|
                    0 <= j < i ==> (#[trigger] list@[j])@ == self.all_detections@[j].text@,
            decreases self.all_detections@.len() - i,
        {
            list.push(self.all_detections[i].text.clone());
            i += 1;
        }
        assert(text::texts(list@) =~= detected_texts(self.all_detections@));
        text::join(&list, " ")
    }
}

/// All text that was found are the pieces in their order, with a space between any two; the
/// number itself only where nothing else is recorded.
pub proof fn all_text_is_told_in_order(
    result: OcrResult,
    first: Seq<Detection>,
    rest: Seq<Detection>,
)
    requires
        result.all_detections@ == first + rest,
    ensures
        first.len() == 0 && rest.len() == 0 ==> result.raw() == result.text@,
        first.len() == 1 && rest.len() == 0 ==> result.raw() == first[0].text@,
        first.len() > 0 && rest.len() > 0 ==> result.raw() == text::joined(
            detected_texts(first),
            " "@,
        ) + " "@ + text::joined(detected_texts(rest), " "@),
{
    assert(detected_texts(first + rest) =~= detected_texts(first) + detected_texts(rest));
    text::separators_stand_between(detected_texts(first), detected_texts(rest), " "@);
    if first.len() == 1 && rest.len() == 0 {
        assert(first + rest =~= first);
    }
}

}
