//! Reading the number of an image: what was found in it and in the crops around
//! the sticker is grouped by its digits, and the best group is the number.

use crate::ocr_result::{Detection, OcrResult};
use crate::score::Score;
use crate::text;
use vstd::prelude::*;

verus! {

/// The longest side of an image that is read.
pub const OCR_MAX_SIDE: u32 = 1800;

/// A number that was found: the digits, the best confidence, how often it was
/// found, and how often of that near the sticker.
#[derive(Debug)]
pub struct Candidate {
    pub digits: String,
    pub max_confidence: Score,
    pub count: usize,
    pub template_hits: usize,
}

/// What a candidate says.
pub type CandidateView = (Seq<char>, Score, nat, nat);

/// What a candidate says.
pub open spec fn candidate_view(c: Candidate) -> CandidateView {
    (c.digits@, c.max_confidence, c.count as nat, c.template_hits as nat)
}

/// What candidates say.
pub open spec fn candidates_view(candidates: Seq<Candidate>) -> Seq<CandidateView> {
    Seq::new(candidates.len(), |i: int| candidate_view(candidates[i]))
}

/// Digits that can be a number: one to six of them.
pub open spec fn is_number(digits: Seq<char>) -> bool {
    1 <= digits.len() <= 6
}

/// The place of a number among the candidates; below zero where it has none.
pub open spec fn place_of(candidates: Seq<CandidateView>, digits: Seq<char>) -> int
    decreases candidates.len(),
{
    if candidates.len() == 0 {
        -1
    } else if candidates.last().0 == digits {
        candidates.len() - 1
    } else {
        place_of(candidates.drop_last(), digits)
    }
}

/// The candidates after one more detection.
pub open spec fn with_detection(
    candidates: Seq<CandidateView>,
    detection: Detection,
    from_template: bool,
) -> Seq<CandidateView> {
    let digits = text::digits_of(detection.text@);
    let hit: nat = if from_template {
        1
    } else {
        0
    };
    if !is_number(digits) {
        candidates
    } else {
        let at = place_of(candidates, digits);
        if at < 0 {
            candidates.push(
                (digits, (Score { bits: 0 }).larger(detection.confidence), 1nat, hit),
            )
        } else {
            let c = candidates[at];
            candidates.update(at, (c.0, c.1.larger(detection.confidence), c.2 + 1, c.3 + hit))
        }
    }
}

/// The candidates after some more detections.
pub open spec fn with_detections(
    candidates: Seq<CandidateView>,
    detections: Seq<Detection>,
    from_template: bool,
) -> Seq<CandidateView>
    decreases detections.len(),
{
    if detections.len() == 0 {
        candidates
    } else {
        with_detection(
            with_detections(candidates, detections.drop_last(), from_template),
            detections.last(),
            from_template,
        )
    }
}

/// What was found so far: the candidates, in the order in which they were first
/// found, and every detection.
#[derive(Debug)]
pub struct Findings {
    pub candidates: Vec<Candidate>,
    pub all_detections: Vec<Detection>,
}

proof fn lemma_place_of(candidates: Seq<CandidateView>, digits: Seq<char>)
    ensures
        -1 <= place_of(candidates, digits) < candidates.len(),
        place_of(candidates, digits) >= 0 ==> candidates[place_of(candidates, digits)].0 == digits,
        place_of(candidates, digits) < 0 ==> forall|i: int|
            0 <= i < candidates.len() ==> (#[trigger] candidates[i]).0 != digits,
    decreases candidates.len(),
{
    if candidates.len() > 0 && candidates.last().0 != digits {
        lemma_place_of(candidates.drop_last(), digits);
        if place_of(candidates, digits) < 0 {
            assert forall|i: int| 0 <= i < candidates.len() implies (#[trigger] candidates[i]).0
                != digits by {
                if i < candidates.len() - 1 {
                    assert(candidates[i] == candidates.drop_last()[i]);
                }
            }
        }
    }
}

fn find_candidate(candidates: &Vec<Candidate>, digits: &str) -> (at: Option<usize>)
    ensures
        match at {
            Some(i) => i < candidates@.len() && place_of(candidates_view(candidates@), digits@)
                == i,
            None => place_of(candidates_view(candidates@), digits@) < 0,
        },
{
    let ghost view = candidates_view(candidates@);
    let mut i: usize = candidates.len();
    proof {
        assert(view.take(i as int) =~= view);
    }
    while i > 0
        invariant
            i <= candidates@.len(),
            view == candidates_view(candidates@),
            place_of(view, digits@) == place_of(view.take(i as int), digits@),
        decreases i,
    {
        proof {
            assert(view.take(i as int).last() == candidate_view(candidates@[i - 1]));
            assert(view.take(i as int).drop_last() =~= view.take(i - 1));
        }
        if text::same_text(candidates[i - 1].digits.as_str(), digits) {
            return Some(i - 1);
        }
        i -= 1;
    }
    None
}

impl Findings {
    /// A number was found no more often than there are detections.
    pub open spec fn wf(&self) -> bool {
        forall|i: int|
            0 <= i < self.candidates@.len() ==> (#[trigger] self.candidates@[i]).count
                <= self.all_detections@.len() && self.candidates@[i].template_hits
                <= self.candidates@[i].count
    }

    /// Nothing was found yet.
    pub fn new() -> (findings: Findings)
        ensures
            findings.wf(),
            findings.candidates@.len() == 0,
            findings.all_detections@.len() == 0,
    {
        Findings { candidates: Vec::new(), all_detections: Vec::new() }
    }

    /// Adds what was found in an image or a crop.
    pub fn merge_detections(&mut self, detections: Vec<Detection>, from_template: bool)
        requires
            old(self).wf(),
        ensures
            final(self).wf(),
            final(self).all_detections@ == old(self).all_detections@ + detections@,
            candidates_view(final(self).candidates@) == with_detections(
                candidates_view(old(self).candidates@),
                detections@,
                from_template,
            ),
    {
        let ghost known = candidates_view(self.candidates@);
        let ghost before = self.all_detections@;
        let mut i: usize = 0;
        proof {
            assert(detections@.take(0) =~= Seq::<Detection>::empty());
            assert(before + detections@.take(0) =~= before);
        }
        while i < detections.len()
            invariant
                i <= detections@.len(),
                self.wf(),
                self.all_detections@ == before + detections@.take(i as int),
                candidates_view(self.candidates@) == with_detections(
                    known,
                    detections@.take(i as int),
                    from_template,
                ),
            decreases detections@.len() - i,
        {
            proof {
                assert(detections@.take(i + 1).drop_last() =~= detections@.take(i as int));
                assert(detections@.take(i + 1).last() == detections@[i as int]);
            }
            self.add(&detections[i], from_template);
            assert(self.all_detections@ =~= before + detections@.take(i + 1));
            i += 1;
        }
        assert(detections@.take(i as int) =~= detections@);
    }

    fn add(&mut self, detection: &Detection, from_template: bool)
        requires
            old(self).wf(),
        ensures
            final(self).wf(),
            final(self).all_detections@ == old(self).all_detections@.push(*detection),
            candidates_view(final(self).candidates@) == with_detection(
                candidates_view(old(self).candidates@),
                *detection,
                from_template,
            ),
    {
        let ghost before = *self;
        self.all_detections.push(detection.clone());
        let limit: usize = self.all_detections.len();
        let digits = text::digits_only(detection.text.as_str());
        let length: usize = text::chars_of(digits.as_str()).len();
        if length < 1 || length > 6 {
            return ;
        }
        let hit: usize = if from_template {
            1
        } else {
            0
        };
        match find_candidate(&self.candidates, digits.as_str()) {
            Some(at) => {
                assert(before.candidates@[at as int].count < limit);
                let c = &self.candidates[at];
                let more = Candidate {
                    digits: c.digits.clone(),
                    max_confidence: c.max_confidence.max_with(detection.confidence),
                    count: c.count + 1,
                    template_hits: c.template_hits + hit,
                };
                self.candidates.set(at, more);
                assert(candidates_view(self.candidates@) =~= with_detection(
                    candidates_view(before.candidates@),
                    *detection,
                    from_template,
                ));
            },
            None => {
                let none = Score { bits: 0 };
                self.candidates.push(
                    Candidate {
                        digits,
                        max_confidence: none.max_with(detection.confidence),
                        count: 1,
                        template_hits: hit,
                    },
                );
                assert(candidates_view(self.candidates@) =~= with_detection(
                    candidates_view(before.candidates@),
                    *detection,
                    from_template,
                ));
            },
        }
    }

    /// Whether the whole image has to be read: nothing usable was found near the
    /// sticker.
    pub fn needs_full_image(&self) -> (needs: bool)
        ensures
            needs == (self.candidates@.len() == 0),
    {
        self.candidates.len() == 0
    }

    /// The number of an image: the candidate with the best score, the last of
    /// equally good ones. The scores are those of the candidates in their order.
    pub fn best_number(self, scores: &Vec<Score>) -> (result: Option<OcrResult>)
        requires
            scores@.len() == self.candidates@.len(),
        ensures
            result is None <==> self.candidates@.len() == 0,
            result matches Some(r) ==> {
                let best = best_place(scores@);
                &&& r.text@ == self.candidates@[best].digits@
                &&& r.confidence == self.candidates@[best].max_confidence
                &&& r.all_detections@ == self.all_detections@
            },
    {
        if self.candidates.len() == 0 {
            return None;
        }
        let mut best: usize = 0;
        let mut i: usize = 1;
        proof {
            assert(scores@.take(1).drop_last() =~= Seq::<Score>::empty());
        }
        while i < scores.len()
            invariant
                1 <= i <= scores@.len(),
                best < i,
                best == best_place(scores@.take(i as int)),
            decreases scores@.len() - i,
        {
            proof {
                assert(scores@.take(i + 1).drop_last() =~= scores@.take(i as int));
                assert(scores@.take(i + 1).last() == scores@[i as int]);
                assert(scores@.take(i as int)[best as int] == scores@[best as int]);
            }
            if scores[best].order_rank() <= scores[i].order_rank() {
                best = i;
            }
            i += 1;
        }
        assert(scores@.take(i as int) =~= scores@);
        Some(
            OcrResult {
                text: self.candidates[best].digits.clone(),
                confidence: self.candidates[best].max_confidence,
                all_detections: self.all_detections,
            },
        )
    }
}

/// The place of the best score, the last of equally good ones.
pub open spec fn best_place(scores: Seq<Score>) -> int
    decreases scores.len(),
{
    if scores.len() <= 1 {
        0
    } else {
        let before = best_place(scores.drop_last());
        if scores[before].rank() <= scores.last().rank() {
            scores.len() - 1
        } else {
            before
        }
    }
}

/// No score is above the best one.
pub proof fn best_place_is_best(scores: Seq<Score>)
    requires
        scores.len() > 0,
    ensures
        0 <= best_place(scores) < scores.len(),
        forall|i: int|
            0 <= i < scores.len() ==> (#[trigger] scores[i]).rank()
                <= scores[best_place(scores)].rank(),
    decreases scores.len(),
{
    if scores.len() > 1 {
        let rest = scores.drop_last();
        best_place_is_best(rest);
        assert forall|i: int| 0 <= i < scores.len() implies (#[trigger] scores[i]).rank()
            <= scores[best_place(scores)].rank() by {
            if i < rest.len() {
                assert(rest[i] == scores[i]);
            }
        }
    }
}

/// Every candidate is a number of one to six digits, and no number is a candidate
/// twice, whatever was found.
pub proof fn candidates_are_distinct_numbers(
    candidates: Seq<CandidateView>,
    detections: Seq<Detection>,
    from_template: bool,
)
    requires
        forall|i: int|
            0 <= i < candidates.len() ==> is_number((#[trigger] candidates[i]).0)
                && text::all_digits(candidates[i].0),
        forall|i: int, j: int|
            0 <= i < j < candidates.len() ==> (#[trigger] candidates[i]).0 != (
            #[trigger] candidates[j]).0,
    ensures
        ({
            let after = with_detections(candidates, detections, from_template);
            &&& forall|i: int|
                0 <= i < after.len() ==> is_number((#[trigger] after[i]).0) && text::all_digits(
                    after[i].0,
                )
            &&& forall|i: int, j: int|
                0 <= i < j < after.len() ==> (#[trigger] after[i]).0 != (#[trigger] after[j]).0
        }),
    decreases detections.len(),
{
    if detections.len() > 0 {
        let rest = detections.drop_last();
        candidates_are_distinct_numbers(candidates, rest, from_template);
        let before = with_detections(candidates, rest, from_template);
        let digits = text::digits_of(detections.last().text@);
        text::digits_of_digits(detections.last().text@);
        lemma_place_of(before, digits);
        let after = with_detections(candidates, detections, from_template);
        assert forall|i: int, j: int| 0 <= i < j < after.len() implies (#[trigger] after[i]).0 != (
        #[trigger] after[j]).0 by {
            if is_number(digits) {
                assert(after[i].0 == before[i].0);
                if j < before.len() {
                    assert(after[j].0 == before[j].0);
                }
            }
        }
        assert forall|i: int| 0 <= i < after.len() implies is_number((#[trigger] after[i]).0)
            && text::all_digits(after[i].0) by {
            if i < before.len() {
                assert(after[i].0 == before[i].0);
            }
        }
    }
}

/// A pixel that is likely part of the blue field of a number: blue enough, bluer
/// than red and green, and not grey.
pub open spec fn is_blue(r: u8, g: u8, b: u8) -> bool {
    let max = if r >= g && r >= b {
        r
    } else if g >= b {
        g
    } else {
        b
    };
    let min = if r <= g && r <= b {
        r
    } else if g <= b {
        g
    } else {
        b
    };
    b > 70 && b > (if r + 18 > 255 {
        255
    } else {
        r + 18
    }) && b > (if g + 10 > 255 {
        255
    } else {
        g + 10
    }) && max - min > 28
}

fn likely_blue(r: u8, g: u8, b: u8) -> (is: bool)
    ensures
        is == is_blue(r, g, b),
{
    let max: u8 = if r >= g && r >= b {
        r
    } else if g >= b {
        g
    } else {
        b
    };
    let min: u8 = if r <= g && r <= b {
        r
    } else if g <= b {
        g
    } else {
        b
    };
    b > 70 && b > r.saturating_add(18) && b > g.saturating_add(10) && max - min > 28
}

/// The pixel at a place of an image that is given as its red, green and blue
/// values, row by row.
pub open spec fn blue_at(rgb: Seq<u8>, place: int) -> bool {
    is_blue(rgb[3 * place], rgb[3 * place + 1], rgb[3 * place + 2])
}

/// How many of the first pixels are blue.
pub open spec fn blue_count(rgb: Seq<u8>, upto: nat) -> nat
    decreases upto,
{
    if upto == 0 {
        0
    } else {
        blue_count(rgb, (upto - 1) as nat) + (if blue_at(rgb, upto - 1) {
            1nat
        } else {
            0nat
        })
    }
}

/// The smallest rectangle around the blue pixels: its edges, which belong to it.
#[derive(Clone, Copy, Debug, PartialEq, Eq, Structural)]
pub struct PixelBounds {
    pub min_x: u32,
    pub min_y: u32,
    pub max_x: u32,
    pub max_y: u32,
}

/// The rectangle holds the first blue pixels, and each of its edges touches one.
pub open spec fn bounds_blue(bounds: PixelBounds, rgb: Seq<u8>, width: u32, upto: nat) -> bool {
    &&& forall|p: int|
        0 <= p < upto && #[trigger] blue_at(rgb, p) ==> bounds.min_x <= p % (width as int)
            <= bounds.max_x && bounds.min_y <= p / (width as int) <= bounds.max_y
    &&& exists|p: int|
        0 <= p < upto && #[trigger] blue_at(rgb, p) && p % (width as int) == bounds.min_x
    &&& exists|p: int|
        0 <= p < upto && #[trigger] blue_at(rgb, p) && p % (width as int) == bounds.max_x
    &&& exists|p: int|
        0 <= p < upto && #[trigger] blue_at(rgb, p) && p / (width as int) == bounds.min_y
    &&& exists|p: int|
        0 <= p < upto && #[trigger] blue_at(rgb, p) && p / (width as int) == bounds.max_y
}

/// Finds the blue field of a template. There is none in a template that is too
/// small or has too few blue pixels.
pub fn infer_number_roi(rgb: &Vec<u8>, width: u32, height: u32) -> (bounds: Option<PixelBounds>)
    requires
        rgb@.len() == 3 * (width * height),
    ensures
        ({
            let pixels = (width * height) as nat;
            &&& bounds is None <==> (width < 8 || height < 8 || blue_count(rgb@, pixels) < 24)
            &&& bounds matches Some(b) ==> bounds_blue(b, rgb@, width, pixels)
        }),
{
    if width < 8 || height < 8 {
        return None;
    }
    let mut found: Option<PixelBounds> = None;
    let mut count: usize = 0;
    let mut place: usize = 0;
    let mut x: u32 = 0;
    let mut y: u32 = 0;
    let ghost pixels = width * height;
    let length: usize = rgb.len();
    while y < height
        invariant
            8 <= width,
            pixels == width * height,
            length == rgb@.len() == 3 * pixels,
            place <= pixels,
            x < width,
            y <= height,
            y == height ==> x == 0,
            place == y * width + x,
            count == blue_count(rgb@, place as nat),
            count <= place,
            found is None <==> count == 0,
            found matches Some(b) ==> bounds_blue(b, rgb@, width, place as nat),
        decreases pixels - place,
    {
        proof {
            assert(y * width + x < width * height && y * width + width <= width * height)
                by (nonlinear_arith)
                requires
                    x < width,
                    y < height,
            ;
            vstd::arithmetic::div_mod::lemma_fundamental_div_mod_converse(
                place as int,
                width as int,
                y as int,
                x as int,
            );
        }
        let at: usize = 3 * place;
        let blue = likely_blue(rgb[at], rgb[at + 1], rgb[at + 2]);
        assert(blue == blue_at(rgb@, place as int));
        if blue {
            count += 1;
            let ghost old_found = found;
            found = Some(
                match found {
                    None => PixelBounds { min_x: x, min_y: y, max_x: x, max_y: y },
                    Some(b) => PixelBounds {
                        min_x: if x < b.min_x {
                            x
                        } else {
                            b.min_x
                        },
                        min_y: if y < b.min_y {
                            y
                        } else {
                            b.min_y
                        },
                        max_x: if x > b.max_x {
                            x
                        } else {
                            b.max_x
                        },
                        max_y: if y > b.max_y {
                            y
                        } else {
                            b.max_y
                        },
                    },
                },
            );
            proof {
                lemma_more_bounds(old_found, found->0, rgb@, width, x, y, place as nat, count);
            }
        } else {
            proof {
                if let Some(b) = found {
                    lemma_same_bounds(b, rgb@, width, place as nat);
                }
            }
        }
        place += 1;
        if x + 1 < width {
            x += 1;
        } else {
            assert((y + 1) * width == y * width + width) by (nonlinear_arith);
            x = 0;
            y += 1;
        }
    }
    assert(place == pixels) by {
        assert(height * width == width * height) by (nonlinear_arith);
    }
    if count < 24 {
        None
    } else {
        found
    }
}

proof fn lemma_same_bounds(b: PixelBounds, rgb: Seq<u8>, width: u32, upto: nat)
    requires
        bounds_blue(b, rgb, width, upto),
        !blue_at(rgb, upto as int),
    ensures
        bounds_blue(b, rgb, width, upto + 1),
{
    let w = width as int;
    let p1 = choose|p: int| 0 <= p < upto && #[trigger] blue_at(rgb, p) && p % w == b.min_x;
    assert(blue_at(rgb, p1) && p1 < upto + 1);
    let p2 = choose|p: int| 0 <= p < upto && #[trigger] blue_at(rgb, p) && p % w == b.max_x;
    assert(blue_at(rgb, p2) && p2 < upto + 1);
    let p3 = choose|p: int| 0 <= p < upto && #[trigger] blue_at(rgb, p) && p / w == b.min_y;
    assert(blue_at(rgb, p3) && p3 < upto + 1);
    let p4 = choose|p: int| 0 <= p < upto && #[trigger] blue_at(rgb, p) && p / w == b.max_y;
    assert(blue_at(rgb, p4) && p4 < upto + 1);
}

proof fn lemma_no_blue(rgb: Seq<u8>, upto: nat)
    requires
        blue_count(rgb, upto) == 0,
    ensures
        forall|p: int| 0 <= p < upto ==> !#[trigger] blue_at(rgb, p),
    decreases upto,
{
    if upto > 0 {
        lemma_no_blue(rgb, (upto - 1) as nat);
    }
}

proof fn lemma_more_bounds(
    before: Option<PixelBounds>,
    after: PixelBounds,
    rgb: Seq<u8>,
    width: u32,
    x: u32,
    y: u32,
    place: nat,
    count: usize,
)
    requires
        width > 0,
        blue_at(rgb, place as int),
        place as int % (width as int) == x,
        place as int / (width as int) == y,
        count == blue_count(rgb, place) + 1,
        before is None <==> count == 1,
        before matches Some(b) ==> bounds_blue(b, rgb, width, place) && after == (PixelBounds {
            min_x: if x < b.min_x {
                x
            } else {
                b.min_x
            },
            min_y: if y < b.min_y {
                y
            } else {
                b.min_y
            },
            max_x: if x > b.max_x {
                x
            } else {
                b.max_x
            },
            max_y: if y > b.max_y {
                y
            } else {
                b.max_y
            },
        }),
        before is None ==> after == (PixelBounds { min_x: x, min_y: y, max_x: x, max_y: y }),
    ensures
        bounds_blue(after, rgb, width, place + 1),
{
    let w = width as int;
    assert(blue_at(rgb, place as int));
    match before {
        None => {
            lemma_no_blue(rgb, place);
        },
        Some(b) => {
            let p1 = choose|p: int|
                0 <= p < place && #[trigger] blue_at(rgb, p) && p % w == b.min_x;
            assert(blue_at(rgb, p1) && p1 < place + 1);
            let p2 = choose|p: int|
                0 <= p < place && #[trigger] blue_at(rgb, p) && p % w == b.max_x;
            assert(blue_at(rgb, p2) && p2 < place + 1);
            let p3 = choose|p: int|
                0 <= p < place && #[trigger] blue_at(rgb, p) && p / w == b.min_y;
            assert(blue_at(rgb, p3) && p3 < place + 1);
            let p4 = choose|p: int|
                0 <= p < place && #[trigger] blue_at(rgb, p) && p / w == b.max_y;
            assert(blue_at(rgb, p4) && p4 < place + 1);
        },
    }
}

/// Every detection with one to six digits leaves these among the candidates, and so does
/// every candidate that there was before.
pub proof fn usable_detections_become_candidates(
    candidates: Seq<CandidateView>,
    detections: Seq<Detection>,
    from_template: bool,
)
    ensures
        ({
            let after = with_detections(candidates, detections, from_template);
            &&& forall|i: int|
                #![trigger detections[i]]
                0 <= i < detections.len() && 1 <= text::digits_of(detections[i].text@).len() <= 6
                    ==> exists|k: int|
                    0 <= k < after.len() && (#[trigger] after[k]).0 == text::digits_of(
                        detections[i].text@,
                    )
            &&& after.len() >= candidates.len()
            &&& forall|k: int|
                0 <= k < candidates.len() ==> (#[trigger] after[k]).0 == candidates[k].0
        }),
    decreases detections.len(),
{
    if detections.len() > 0 {
        let rest = detections.drop_last();
        usable_detections_become_candidates(candidates, rest, from_template);
        let before = with_detections(candidates, rest, from_template);
        let after = with_detections(candidates, detections, from_template);
        let digits = text::digits_of(detections.last().text@);
        lemma_place_of(before, digits);
        assert forall|k: int| 0 <= k < before.len() implies (#[trigger] after[k]).0
            == before[k].0 by {}
        assert forall|i: int|
            #![trigger detections[i]]
            0 <= i < detections.len() && 1 <= text::digits_of(detections[i].text@).len()
                <= 6 implies exists|k: int|
            0 <= k < after.len() && (#[trigger] after[k]).0 == text::digits_of(
                detections[i].text@,
            ) by {
            if i < rest.len() {
                assert(rest[i] == detections[i]);
                let k = choose|k: int|
                    0 <= k < before.len() && (#[trigger] before[k]).0 == text::digits_of(
                        rest[i].text@,
                    );
                assert(after[k].0 == before[k].0);
            } else {
                let at = place_of(before, digits);
                if at < 0 {
                    assert(after[before.len() as int].0 == digits);
                } else {
                    assert(after[at].0 == digits);
                }
            }
        }
    }
}

/// A candidate comes of a detection: every one that was not there before has the digits of
/// one of the detections, and one to six of them.
pub proof fn candidates_come_of_detections(
    candidates: Seq<CandidateView>,
    detections: Seq<Detection>,
    from_template: bool,
)
    ensures
        ({
            let after = with_detections(candidates, detections, from_template);
            forall|k: int|
                #![trigger after[k]]
                candidates.len() <= k < after.len() ==> 1 <= after[k].0.len() <= 6 && exists|
                    i: int,
                |
                    0 <= i < detections.len() && after[k].0 == text::digits_of(
                        (#[trigger] detections[i]).text@,
                    )
        }),
    decreases detections.len(),
{
    usable_detections_become_candidates(candidates, detections, from_template);
    if detections.len() > 0 {
        let rest = detections.drop_last();
        candidates_come_of_detections(candidates, rest, from_template);
        usable_detections_become_candidates(candidates, rest, from_template);
        let before = with_detections(candidates, rest, from_template);
        let after = with_detections(candidates, detections, from_template);
        let digits = text::digits_of(detections.last().text@);
        lemma_place_of(before, digits);
        assert forall|k: int|
            #![trigger after[k]]
            candidates.len() <= k < after.len() implies 1 <= after[k].0.len() <= 6 && exists|
            i: int,
        |
            0 <= i < detections.len() && after[k].0 == text::digits_of(
                (#[trigger] detections[i]).text@,
            ) by {
            if k < before.len() {
                assert(after[k].0 == before[k].0);
                let i = choose|i: int|
                    0 <= i < rest.len() && before[k].0 == text::digits_of(
                        (#[trigger] rest[i]).text@,
                    );
                assert(detections[i] == rest[i]);
            } else {
                assert(detections[detections.len() - 1] == detections.last());
            }
        }
    }
}

/// A detection counts for its own digits and for nothing else: their candidate is found
/// once more, near the sticker once more just where it was read there, and is at least as
/// sure as the detection; its confidence is the detection's or the one that it had. All
/// other candidates stay as they are. A detection without one to six digits changes
/// nothing.
pub proof fn detections_count_for_their_digits(
    candidates: Seq<CandidateView>,
    detection: Detection,
    from_template: bool,
)
    requires
        forall|i: int, j: int|
            0 <= i < j < candidates.len() ==> (#[trigger] candidates[i]).0 != (
            #[trigger] candidates[j]).0,
    ensures
        ({
            let digits = text::digits_of(detection.text@);
            let after = with_detections(candidates, seq![detection], from_template);
            let hit: nat = if from_template {
                1
            } else {
                0
            };
            &&& digits.len() == 0 || digits.len() > 6 ==> after == candidates
            &&& forall|k: int|
                0 <= k < candidates.len() && (#[trigger] candidates[k]).0 != digits ==> after[k]
                    == candidates[k]
            &&& forall|k: int|
                #![trigger candidates[k]]
                1 <= digits.len() <= 6 && 0 <= k < candidates.len() && candidates[k].0 == digits
                    ==> {
                    &&& after.len() == candidates.len()
                    &&& after[k].0 == digits
                    &&& after[k].2 == candidates[k].2 + 1
                    &&& after[k].3 == candidates[k].3 + hit
                    &&& after[k].1 == candidates[k].1 || after[k].1 == detection.confidence
                    &&& !detection.confidence.nan() ==> !after[k].1.nan() && after[k].1.value()
                        >= detection.confidence.value()
                    &&& !candidates[k].1.nan() ==> !after[k].1.nan() && after[k].1.value()
                        >= candidates[k].1.value()
                }
            &&& 1 <= digits.len() <= 6 && (forall|k: int|
                0 <= k < candidates.len() ==> (#[trigger] candidates[k]).0 != digits) ==> {
                let new = after.last();
                &&& after.len() == candidates.len() + 1
                &&& new.0 == digits
                &&& new.2 == 1
                &&& new.3 == hit
                &&& !detection.confidence.nan() && detection.confidence.value() >= 0
                    ==> new.1.value() == detection.confidence.value()
                &&& new.1.value() >= 0
            }
        }),
{
    let digits = text::digits_of(detection.text@);
    let one = seq![detection];
    assert(one.drop_last() =~= Seq::<Detection>::empty());
    assert(one.last() == detection);
    assert(with_detections(candidates, one, from_template) == with_detection(
        with_detections(candidates, one.drop_last(), from_template),
        detection,
        from_template,
    ));
    lemma_place_of(candidates, digits);
    assert((Score { bits: 0 }).value() == 0) by {
        assert(crate::score::scaled(0) == 0);
    }
    let at = place_of(candidates, digits);
    assert forall|k: int| 0 <= k < candidates.len() && (#[trigger] candidates[k]).0
        == digits implies k == at by {
        if k < at {
            assert(candidates[k].0 != candidates[at].0);
        } else if at >= 0 && at < k {
            assert(candidates[at].0 != candidates[k].0);
        }
    }
    crate::score::the_larger_is_above_both(Score { bits: 0 }, detection.confidence);
    if at >= 0 {
        crate::score::the_larger_is_above_both(candidates[at].1, detection.confidence);
    }
}

/// What is found piece by piece adds up to the same as what is found at once.
pub proof fn findings_add_up(
    candidates: Seq<CandidateView>,
    first: Seq<Detection>,
    more: Seq<Detection>,
    from_template: bool,
)
    ensures
        with_detections(candidates, first + more, from_template) == with_detections(
            with_detections(candidates, first, from_template),
            more,
            from_template,
        ),
    decreases more.len(),
{
    if more.len() == 0 {
        assert(first + more =~= first);
    } else {
        findings_add_up(candidates, first, more.drop_last(), from_template);
        assert((first + more).drop_last() =~= first + more.drop_last());
    }
}

/// The best score is above all that come after it, so that of equally good ones the last
/// is taken.
pub proof fn the_last_best_is_taken(scores: Seq<Score>, i: int)
    requires
        0 <= i < scores.len(),
        i > best_place(scores),
    ensures
        scores[i].rank() < scores[best_place(scores)].rank(),
    decreases scores.len(),
{
    if scores.len() > 1 {
        let rest = scores.drop_last();
        best_place_is_best(rest);
        if i < rest.len() && best_place(scores) != scores.len() - 1 {
            the_last_best_is_taken(rest, i);
        }
    }
}

/// A pixel of the blue field is bluer than it is red by more than 18 and than it is green
/// by more than 10, one of the two by more than 28, and its blue is above 70.
pub proof fn blue_is_above_red_and_green(r: u8, g: u8, b: u8)
    ensures
        is_blue(r, g, b) <==> b > 70 && b - r > 18 && b - g > 10 && (b - r > 28 || b - g > 28),
{
}

/// One pixel more is one blue pixel more just when it is blue; and an image is not read with a
/// side above 1800 pixels.
pub proof fn blue_pixels_are_counted_one_by_one(rgb: Seq<u8>, upto: nat)
    ensures
        blue_count(rgb, 0) == 0,
        blue_count(rgb, upto + 1) == blue_count(rgb, upto) + (if is_blue(
            rgb[3int * upto],
            rgb[3int * upto + 1],
            rgb[3int * upto + 2],
        ) {
            1nat
        } else {
            0
        }),
        OCR_MAX_SIDE == 1800,
{
}

/// The place of a number is the last one that has it, and there is none just when no candidate
/// has it.
pub proof fn numbers_are_found_among_the_candidates(
    candidates: Seq<CandidateView>,
    digits: Seq<char>,
)
    ensures
        place_of(candidates, digits) < candidates.len(),
        place_of(candidates, digits) >= 0 ==> candidates[place_of(candidates, digits)].0 == digits,
        forall|i: int|
            place_of(candidates, digits) < i < candidates.len() && 0 <= i ==> (
            #[trigger] candidates[i]).0 != digits,
    decreases candidates.len(),
{
    if candidates.len() > 0 && candidates.last().0 != digits {
        let rest = candidates.drop_last();
        numbers_are_found_among_the_candidates(rest, digits);
        assert forall|i: int|
            place_of(candidates, digits) < i < candidates.len() && 0 <= i implies (
        #[trigger] candidates[i]).0 != digits by {
            if i < rest.len() {
                assert(rest[i] == candidates[i]);
            }
        }
    }
}

}
