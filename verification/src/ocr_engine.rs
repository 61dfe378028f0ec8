//! Reading text with the OCR engine: what it says of a picture, and which numbers come
//! of the crops around the sticker or, failing these, of the whole picture.

use crate::image_ops;
use crate::ocr;
use crate::ocr::Findings;
use crate::ocr_result::Detection;
use crate::raster;
use crate::raster::Raster;
use crate::score::Score;
use oar_ocr::oarocr::OAROCR;
use vstd::prelude::*;

verus! {

/// The OCR engine of `oar_ocr`, carried as it is.
#[verifier::external_type_specification]
#[verifier::external_body]
pub struct ExOarOcr(oar_ocr::oarocr::OAROCR);

/// A piece of text that the engine found: what it reads, and the pattern of how sure it
/// is of that, as far as it could be read.
pub type Region = (Option<String>, Option<u32>);

/// The answers that an engine may give to a picture, by its size and the values of its
/// colors: the regions of each result, or nothing where it fails. Which of them it gives
/// rests on the models that the engine was made with and on the machine.
pub uninterp spec fn possible_answers(width: u32, height: u32, values: Seq<u8>) -> Set<
    Option<Vec<Vec<Region>>>,
>;

/// `oar_ocr::oarocr::OAROCR::predict` on one picture: the regions of each result, or
/// nothing where the engine fails. The answer is one of those that are possible for just
/// this picture. Left unsaid is which one: that rests on the models that the engine was
/// made with and on the machine. Empty pictures are left out.
#[verifier::external_body]
fn predict(engine: &OAROCR, width: u32, height: u32, values: Vec<u8>) -> (answer: Option<
    Vec<Vec<Region>>,
>)
    requires
        values@.len() == width * height * 3,
        width > 0,
        height > 0,
    ensures
        possible_answers(width, height, values@).contains(answer),
{
    let picture = image::RgbImage::from_raw(width, height, values).unwrap();
    let results = engine.predict(vec![picture]).ok()?;
    let regions = results.into_iter().map(|result| {
        let read = result.text_regions.into_iter().map(|region| {
            (region.text.map(|t| t.to_string()), region.confidence.map(|c| c.to_bits()))
        });
        read.collect()
    });
    Some(regions.collect())
}

/// A detection: its text and its confidence.
pub type DetectionView = (Seq<char>, Score);

/// What detections say.
pub open spec fn detections_view(detections: Seq<Detection>) -> Seq<DetectionView> {
    Seq::new(detections.len(), |i: int| (detections[i].text@, detections[i].confidence))
}

/// The regions that were read, with how sure that is.
pub open spec fn read_regions(regions: Seq<Region>) -> Seq<DetectionView>
    decreases regions.len(),
{
    if regions.len() == 0 {
        Seq::empty()
    } else {
        let before = read_regions(regions.drop_last());
        match regions.last() {
            (Some(text), Some(bits)) => before.push((text@, Score { bits })),
            _ => before,
        }
    }
}

/// What an answer of the engine to one picture says: what was read in the first result.
pub open spec fn told(answer: Option<Vec<Vec<Region>>>) -> Seq<DetectionView> {
    match answer {
        Some(results) => if results@.len() == 0 {
            Seq::empty()
        } else {
            read_regions(results@[0]@)
        },
        None => Seq::empty(),
    }
}

/// What an answer of the engine to one picture says.
pub fn detections_in(answer: &Option<Vec<Vec<Region>>>) -> (detections: Vec<Detection>)
    ensures
        detections_view(detections@) == told(*answer),
{
    let mut detections: Vec<Detection> = Vec::new();
    assert(detections_view(detections@) =~= Seq::<DetectionView>::empty());
    let results = match answer {
        Some(results) => results,
        None => {
            return detections;
        },
    };
    if results.len() == 0 {
        return detections;
    }
    let regions = &results[0];
    let mut i: usize = 0;
    assert(regions@.take(0) =~= Seq::<Region>::empty());
    while i < regions.len()
        invariant
            i <= regions@.len(),
            detections_view(detections@) == read_regions(regions@.take(i as int)),
        decreases regions@.len() - i,
    {
        proof {
            assert(regions@.take(i + 1).drop_last() =~= regions@.take(i as int));
            assert(regions@.take(i + 1).last() == regions@[i as int]);
        }
        let ghost before = detections@;
        match (&regions[i].0, regions[i].1) {
            (Some(text), Some(bits)) => {
                detections.push(Detection { text: text.clone(), confidence: Score { bits } });
                assert(detections_view(detections@) =~= detections_view(before).push(
                    (text@, Score { bits }),
                ));
            },
            _ => {},
        }
        i += 1;
    }
    assert(regions@.take(i as int) =~= regions@);
    detections
}

/// Detections that may come of reading a picture: an answer that is possible for its
/// size and colors says just these.
pub open spec fn may_be_read(img: Raster, detections: Seq<Detection>) -> bool {
    let values = raster::color_values(
        img.pixels@,
        img.pixel_bytes as int,
        img.width * img.height,
    );
    exists|answer: Option<Vec<Vec<Region>>>| #[trigger]
        possible_answers(img.width, img.height, values).contains(answer) && told(answer)
            == detections_view(detections)
}

/// Reads a picture.
pub fn run_ocr_detections(engine: &OAROCR, img: &Raster) -> (detections: Vec<Detection>)
    requires
        img.wf(),
        img.width > 0,
        img.height > 0,
    ensures
        may_be_read(*img, detections@),
{
    let answer = predict(engine, img.width, img.height, img.rgb_values());
    detections_in(&answer)
}

/// A picture that is not too large to be read is read as it is; any other one is made to
/// fit into a rectangle.
pub open spec fn is_readable_version(before: Raster, after: Raster, bounds: (u32, u32)) -> bool {
    if before.width > ocr::OCR_MAX_SIDE || before.height > ocr::OCR_MAX_SIDE {
        image_ops::is_fitted(before, after, bounds.0, bounds.1)
    } else {
        after.looks_like(&before)
    }
}

/// Makes a picture fit into a rectangle, where it is too large to be read.
pub fn resize_for_ocr(img: Raster, bounds: (u32, u32)) -> (resized: Raster)
    requires
        img.wf(),
        img.width > ocr::OCR_MAX_SIDE || img.height > ocr::OCR_MAX_SIDE ==> image_ops::can_fit(
            img.width,
            img.height,
            bounds.0,
            bounds.1,
        ),
    ensures
        resized.wf(),
        is_readable_version(img, resized, bounds),
{
    if image_ops::exceeds(img.width, img.height, ocr::OCR_MAX_SIDE) {
        image_ops::resize_to_fit(img, bounds.0, bounds.1)
    } else {
        img
    }
}

/// The candidates that come of what was read around the sticker.
pub open spec fn template_candidates(reads: Seq<Vec<Detection>>) -> Seq<ocr::CandidateView>
    decreases reads.len(),
{
    if reads.len() == 0 {
        Seq::empty()
    } else {
        ocr::with_detections(template_candidates(reads.drop_last()), reads.last()@, true)
    }
}

/// All that was read around the sticker.
pub open spec fn all_read(reads: Seq<Vec<Detection>>) -> Seq<Detection>
    decreases reads.len(),
{
    if reads.len() == 0 {
        Seq::empty()
    } else {
        all_read(reads.drop_last()) + reads.last()@
    }
}

/// Puts together what was read around the sticker.
pub fn gather(reads: Vec<Vec<Detection>>) -> (findings: Findings)
    ensures
        findings.wf(),
        ocr::candidates_view(findings.candidates@) == template_candidates(reads@),
        findings.all_detections@ == all_read(reads@),
{
    let mut findings = Findings::new();
    let mut i: usize = 0;
    proof {
        assert(reads@.take(0) =~= Seq::<Vec<Detection>>::empty());
        assert(ocr::candidates_view(findings.candidates@) =~= Seq::<ocr::CandidateView>::empty());
        assert(findings.all_detections@ =~= Seq::<Detection>::empty());
    }
    while i < reads.len()
        invariant
            i <= reads@.len(),
            findings.wf(),
            ocr::candidates_view(findings.candidates@) == template_candidates(
                reads@.take(i as int),
            ),
            findings.all_detections@ == all_read(reads@.take(i as int)),
        decreases reads@.len() - i,
    {
        proof {
            assert(reads@.take(i + 1).drop_last() =~= reads@.take(i as int));
            assert(reads@.take(i + 1).last() == reads@[i as int]);
        }
        let copy = crate::ocr_result::copy_detections(&reads[i]);
        findings.merge_detections(copy, true);
        i += 1;
    }
    assert(reads@.take(i as int) =~= reads@);
    findings
}

/// What comes of reading the crops around the sticker and, where these hold no number,
/// the whole picture.
pub open spec fn is_gathered(
    findings: Findings,
    reads: Seq<Vec<Detection>>,
    whole: Seq<Detection>,
) -> bool {
    let candidates = template_candidates(reads);
    if candidates.len() == 0 {
        &&& ocr::candidates_view(findings.candidates@) == ocr::with_detections(
            candidates,
            whole,
            false,
        )
        &&& findings.all_detections@ == all_read(reads) + whole
    } else {
        &&& ocr::candidates_view(findings.candidates@) == candidates
        &&& findings.all_detections@ == all_read(reads)
    }
}

/// Adds what the whole picture says, where the crops hold no number.
pub fn add_whole_picture(findings: Findings, whole: Vec<Detection>) -> (all: Findings)
    requires
        findings.wf(),
        findings.candidates@.len() == 0,
    ensures
        all.wf(),
        ocr::candidates_view(all.candidates@) == ocr::with_detections(
            ocr::candidates_view(findings.candidates@),
            whole@,
            false,
        ),
        all.all_detections@ == findings.all_detections@ + whole@,
{
    let mut all = findings;
    all.merge_detections(whole, false);
    all
}

/// Reads a picture: first the crops around the sticker, and the whole picture only where
/// these hold no number.
pub fn read_candidates(engine: &OAROCR, working: &Raster, crops: &Vec<Raster>) -> (findings:
    Findings)
    requires
        working.wf(),
        working.width > 0,
        working.height > 0,
        forall|i: int|
            #![trigger crops@[i]]
            0 <= i < crops@.len() ==> crops@[i].wf() && crops@[i].width > 0 && crops@[i].height > 0,
    ensures
        findings.wf(),
        exists|reads: Seq<Vec<Detection>>, whole: Seq<Detection>|
            {
                &&& reads.len() == crops@.len()
                &&& forall|k: int|
                    0 <= k < reads.len() ==> may_be_read(crops@[k], (#[trigger] reads[k])@)
                &&& template_candidates(reads).len() == 0 ==> may_be_read(*working, whole)
                &&& #[trigger] is_gathered(findings, reads, whole)
            },
{
    let mut reads: Vec<Vec<Detection>> = Vec::new();
    let mut i: usize = 0;
    while i < crops.len()
        invariant
            i <= crops@.len(),
            reads@.len() == i,
            forall|k: int| 0 <= k < i ==> may_be_read(crops@[k], (#[trigger] reads@[k])@),
            forall|j: int|
                #![trigger crops@[j]]
                0 <= j < crops@.len() ==> crops@[j].wf() && crops@[j].width > 0
                    && crops@[j].height > 0,
        decreases crops@.len() - i,
    {
        reads.push(run_ocr_detections(engine, &crops[i]));
        i += 1;
    }
    let ghost read = reads@;
    let findings = gather(reads);
    assert(ocr::candidates_view(findings.candidates@).len() == findings.candidates@.len());
    if findings.needs_full_image() {
        let whole = run_ocr_detections(engine, working);
        let ghost seen = whole@;
        let all = add_whole_picture(findings, whole);
        assert(is_gathered(all, read, seen));
        all
    } else {
        assert(is_gathered(findings, read, Seq::empty()));
        findings
    }
}

/// What is read around the sticker keeps the rest of the picture from being read: where
/// a crop holds a number, every candidate is one that was read in a crop.
pub proof fn crops_come_before_the_picture(
    findings: Findings,
    reads: Seq<Vec<Detection>>,
    whole: Seq<Detection>,
    other: Seq<Detection>,
)
    requires
        template_candidates(reads).len() > 0,
        is_gathered(findings, reads, whole),
    ensures
        is_gathered(findings, reads, other),
        ocr::candidates_view(findings.candidates@) == template_candidates(reads),
{
}

/// A region that was read is one with a text and a confidence, and it is told with both; any
/// other one is not told. They are told in their order.
pub proof fn regions_are_told_in_order(a: Seq<Region>, b: Seq<Region>, text: String, bits: u32)
    ensures
        read_regions(a + b) == read_regions(a) + read_regions(b),
        read_regions(seq![(Some(text), Some(bits))]) == seq![(text@, Score { bits })],
        read_regions(seq![(Some(text), None)]).len() == 0,
        read_regions(seq![(None, Some(bits))]).len() == 0,
        read_regions(seq![(None, None)]).len() == 0,
    decreases b.len(),
{
    reveal_with_fuel(read_regions, 2);
    let none = Seq::<Region>::empty();
    let whole: Region = (Some(text), Some(bits));
    let unsure: Region = (Some(text), None);
    let empty: Region = (None, Some(bits));
    let nothing: Region = (None, None);
    assert(seq![whole].drop_last() =~= none);
    assert(seq![unsure].drop_last() =~= none);
    assert(seq![empty].drop_last() =~= none);
    assert(seq![nothing].drop_last() =~= none);
    assert(Seq::<DetectionView>::empty().push((text@, Score { bits })) =~= seq![
        (text@, Score { bits }),
    ]);
    if b.len() == 0 {
        assert(a + b =~= a);
        assert(read_regions(a) + read_regions(b) =~= read_regions(a));
    } else {
        regions_are_told_in_order(a, b.drop_last(), text, bits);
        assert((a + b).drop_last() =~= a + b.drop_last());
        assert((a + b).last() == b.last());
        assert(read_regions(a + b) =~= read_regions(a) + read_regions(b));
    }
}

/// An answer tells what was read in its first result, and nothing where it failed or has no
/// result.
pub proof fn answers_tell_their_first_result(results: Vec<Vec<Region>>)
    ensures
        told(None).len() == 0,
        results@.len() == 0 ==> told(Some(results)).len() == 0,
        results@.len() > 0 ==> told(Some(results)) == read_regions(results@.first()@),
{
}

/// A picture is read as it is unless one of its sides is above 1800 pixels.
pub proof fn small_pictures_are_read_as_they_are(before: Raster, after: Raster, bounds: (u32, u32))
    requires
        is_readable_version(before, after, bounds),
    ensures
        before.width <= 1800 && before.height <= 1800 ==> after.looks_like(&before),
        before.width > 1800 || before.height > 1800 ==> image_ops::is_fitted(
            before,
            after,
            bounds.0,
            bounds.1,
        ),
{
}

/// What is read around the sticker counts crop by crop, as read there; and all of it is kept
/// in its order.
pub proof fn crops_count_one_by_one(reads: Seq<Vec<Detection>>, next: Vec<Detection>)
    ensures
        template_candidates(Seq::empty()).len() == 0,
        all_read(Seq::empty()).len() == 0,
        template_candidates(reads.push(next)) == ocr::with_detections(
            template_candidates(reads),
            next@,
            true,
        ),
        all_read(reads.push(next)) == all_read(reads) + next@,
{
    assert(reads.push(next).drop_last() =~= reads);
}

/// The whole picture counts just where the crops hold no number, and then not as read at the
/// sticker; what was read in the crops is kept in any case.
pub proof fn the_picture_counts_where_crops_hold_nothing(
    findings: Findings,
    reads: Seq<Vec<Detection>>,
    whole: Seq<Detection>,
)
    requires
        is_gathered(findings, reads, whole),
    ensures
        template_candidates(reads).len() == 0 ==> ocr::candidates_view(findings.candidates@)
            == ocr::with_detections(Seq::empty(), whole, false) && findings.all_detections@
            == all_read(reads) + whole,
        template_candidates(reads).len() > 0 ==> ocr::candidates_view(findings.candidates@)
            == template_candidates(reads) && findings.all_detections@ == all_read(reads),
{
    if template_candidates(reads).len() == 0 {
        assert(template_candidates(reads) =~= Seq::<ocr::CandidateView>::empty());
    }
}

}
