//! Finding the event's sticker in an image, from the features that both have in
//! common. The features and the geometry come from outside; what counts as a
//! match and when to give up is decided here.

use crate::event_config::EventConfig;
use crate::paths;
use crate::paths::FilePath;
use crate::score::{Score, ONE_BITS};
use crate::text;
use vstd::prelude::*;

verus! {

/// How many matches the geometry needs at least.
pub const MIN_GOOD_MATCHES_FOR_HOMOGRAPHY: usize = 8;

/// A feature of the template and one of the image, and how far they are apart.
#[derive(Clone, Copy, Debug, PartialEq, Eq, Structural)]
pub struct FeatureMatch {
    pub query_idx: i32,
    pub train_idx: i32,
    pub distance: Score,
}

/// The image features nearest to a feature of the template, the nearest first,
/// and the distance that the nearest must stay below to be told from the second:
/// three quarters of the second's.
#[derive(Debug)]
pub struct NearestFeatures {
    pub matches: Vec<FeatureMatch>,
    pub limit: Score,
}

/// The sticker, as far as it was found in an image.
#[derive(Debug)]
pub struct StickerDetection {
    pub source_path: FilePath,
    pub source_width: i32,
    pub source_height: i32,
    pub found: bool,
    pub match_confidence: Score,
    pub good_match_count: usize,
    pub homography_valid: bool,
    pub has_warped_sticker: bool,
    pub note: Option<String>,
}

/// An image that is searched.
#[derive(Debug)]
pub struct SearchedImage {
    pub path: FilePath,
    pub width: i32,
    pub height: i32,
}

/// A clear match: there is a second-nearest feature, and the nearest is clearly
/// nearer.
pub open spec fn is_good(nearest: NearestFeatures) -> bool {
    nearest.matches@.len() >= 2 && nearest.matches@[0].distance.lt(nearest.limit)
}

/// The clear matches, in order.
pub open spec fn good_of(pairs: Seq<NearestFeatures>) -> Seq<FeatureMatch>
    decreases pairs.len(),
{
    if pairs.len() == 0 {
        Seq::empty()
    } else {
        let before = good_of(pairs.drop_last());
        if is_good(pairs.last()) {
            before.push(pairs.last().matches@[0])
        } else {
            before
        }
    }
}

/// Keeps the clear matches.
pub fn good_matches(pairs: &Vec<NearestFeatures>) -> (good: Vec<FeatureMatch>)
    ensures
        good@ == good_of(pairs@),
{
    let mut good: Vec<FeatureMatch> = Vec::new();
    let mut i: usize = 0;
    assert(pairs@.take(0) =~= Seq::<NearestFeatures>::empty());
    while i < pairs.len()
        invariant
            i <= pairs@.len(),
            good@ == good_of(pairs@.take(i as int)),
        decreases pairs@.len() - i,
    {
        proof {
            assert(pairs@.take(i + 1).drop_last() =~= pairs@.take(i as int));
            assert(pairs@.take(i + 1).last() == pairs@[i as int]);
        }
        let nearest = &pairs[i];
        if nearest.matches.len() >= 2 && nearest.matches[0].distance.is_below(nearest.limit) {
            good.push(nearest.matches[0]);
        }
        i += 1;
    }
    assert(pairs@.take(i as int) =~= pairs@);
    good
}

/// How many entries of a mask are set.
pub open spec fn set_entries(mask: Seq<u8>) -> nat {
    mask.filter(|m: u8| m != 0).len()
}

/// Counts the matches that fit the geometry.
pub fn count_inliers(mask: &Vec<u8>) -> (count: usize)
    ensures
        count == set_entries(mask@),
        count <= mask@.len(),
{
    let mut count: usize = 0;
    let mut i: usize = 0;
    proof {
        reveal(Seq::filter);
        assert(mask@.take(0) =~= Seq::<u8>::empty());
    }
    while i < mask.len()
        invariant
            i <= mask@.len(),
            count <= i,
            count == set_entries(mask@.take(i as int)),
        decreases mask@.len() - i,
    {
        proof {
            reveal(Seq::filter);
            assert(mask@.take(i + 1).drop_last() =~= mask@.take(i as int));
        }
        if mask[i] != 0 {
            count += 1;
        }
        i += 1;
    }
    assert(mask@.take(i as int) =~= mask@);
    count
}

/// What is known so far in a search.
#[derive(Debug)]
pub enum SearchEvent {
    /// How many features the image has, and whether they could be described.
    Features { keypoints: usize, described: bool },
    /// The image features nearest to those of the template.
    Nearest { pairs: Vec<NearestFeatures> },
    /// Whether a geometry was found for the clear matches, and which of them
    /// fit it, where that could be read.
    Geometry { found: bool, mask: Option<Vec<u8>> },
    /// The confidence in the match.
    Scored { confidence: Score },
}

/// What to do next in a search.
#[derive(Debug)]
pub enum SearchStep {
    /// Find the features of the image. Every search starts so.
    FindFeatures,
    /// Find the nearest features.
    FindNearest,
    /// Find a geometry for these matches.
    FitGeometry { matches: Vec<FeatureMatch> },
    /// Compute the confidence from these counts, and straighten the sticker.
    ScoreMatch { good_matches: usize, inliers: usize },
    /// The search is over.
    Finished(StickerDetection),
}

/// A detection that found nothing, for the reason given.
pub open spec fn is_not_found(
    detection: StickerDetection,
    image: SearchedImage,
    reason: Seq<char>,
) -> bool {
    &&& detection.source_path@ == image.path@
    &&& detection.source_width == image.width
    &&& detection.source_height == image.height
    &&& !detection.found
    &&& detection.match_confidence == (Score { bits: 0 })
    &&& detection.good_match_count == 0
    &&& !detection.homography_valid
    &&& !detection.has_warped_sticker
    &&& text::optional_text(detection.note) == Some(reason)
}

/// A detection that found the sticker.
pub open spec fn is_found(
    detection: StickerDetection,
    image: SearchedImage,
    good_matches: usize,
    confidence: Score,
) -> bool {
    &&& detection.source_path@ == image.path@
    &&& detection.source_width == image.width
    &&& detection.source_height == image.height
    &&& detection.found
    &&& detection.match_confidence == confidence.between(
        Score { bits: 0 },
        Score { bits: ONE_BITS },
    )
    &&& detection.good_match_count == good_matches
    &&& detection.homography_valid
    &&& detection.has_warped_sticker
    &&& detection.note is None
}

/// The step that follows a step and what came of it. There is none where the event does
/// not answer the step.
pub open spec fn is_search_step(
    image: SearchedImage,
    step: SearchStep,
    event: SearchEvent,
    next: Option<SearchStep>,
) -> bool {
    match (step, event) {
        (SearchStep::FindFeatures, SearchEvent::Features { keypoints, described }) => if keypoints
            < MIN_GOOD_MATCHES_FOR_HOMOGRAPHY || !described {
            next matches Some(SearchStep::Finished(d)) && is_not_found(
                d,
                image,
                "not enough image features"@,
            )
        } else {
            next == Some(SearchStep::FindNearest)
        },
        (SearchStep::FindNearest, SearchEvent::Nearest { pairs }) => if good_of(pairs@).len()
            < MIN_GOOD_MATCHES_FOR_HOMOGRAPHY {
            next matches Some(SearchStep::Finished(d)) && is_not_found(
                d,
                image,
                "not enough good sticker matches"@,
            )
        } else {
            next matches Some(SearchStep::FitGeometry { matches }) && matches@ == good_of(pairs@)
        },
        (SearchStep::FitGeometry { matches }, SearchEvent::Geometry { found, mask }) => if !found {
            next matches Some(SearchStep::Finished(d)) && is_not_found(
                d,
                image,
                "homography could not be estimated"@,
            )
        } else {
            next matches Some(SearchStep::ScoreMatch { good_matches, inliers }) && good_matches
                == matches@.len() && inliers == (match mask {
                Some(m) => set_entries(m@),
                None => matches@.len(),
            })
        },
        (
            SearchStep::ScoreMatch { good_matches, inliers },
            SearchEvent::Scored { confidence },
        ) => next matches Some(SearchStep::Finished(d)) && is_found(
            d,
            image,
            good_matches,
            confidence,
        ),
        _ => next is None,
    }
}

/// The template of an event, ready to be searched for.
#[derive(Debug)]
pub struct StickerMatcher {
    pub event: EventConfig,
}

/// Why a template cannot be searched for.
#[derive(Clone, Copy, Debug, PartialEq, Eq, Structural)]
pub enum TemplateError {
    /// The template could not be read as an image.
    Empty,
    /// The template has too few features: this many.
    TooFewFeatures(usize),
}

impl TemplateError {
    /// The message for a template at a path.
    pub fn message(self, template: &FilePath) -> (message: String)
        ensures
            message@ == (match self {
                TemplateError::Empty => "sticker template is empty: "@ + paths::shown(template@),
                TemplateError::TooFewFeatures(n) => "sticker template has too few ORB features ("@
                    + text::decimal(n as nat) + ")"@,
            }),
    {
        match self {
            TemplateError::Empty => {
                let mut message = text::owned("sticker template is empty: ");
                let shown = template.display_text();
                text::push_text(&mut message, shown.as_str());
                message
            },
            TemplateError::TooFewFeatures(n) => {
                let mut message = text::owned("sticker template has too few ORB features (");
                text::push_decimal(&mut message, n as u64);
                text::push_text(&mut message, ")");
                message
            },
        }
    }
}

impl StickerMatcher {
    /// A matcher for an event's template, if it could be read and has enough
    /// features.
    pub fn new(event: EventConfig, template_empty: bool, keypoints: usize) -> (matcher: Result<
        StickerMatcher,
        TemplateError,
    >)
        ensures
            match matcher {
                Ok(m) => !template_empty && keypoints >= MIN_GOOD_MATCHES_FOR_HOMOGRAPHY
                    && m.event == event,
                Err(e) => e == (if template_empty {
                    TemplateError::Empty
                } else {
                    TemplateError::TooFewFeatures(keypoints)
                }) && (template_empty || keypoints < MIN_GOOD_MATCHES_FOR_HOMOGRAPHY),
            },
    {
        if template_empty {
            return Err(TemplateError::Empty);
        }
        if keypoints < MIN_GOOD_MATCHES_FOR_HOMOGRAPHY {
            return Err(TemplateError::TooFewFeatures(keypoints));
        }
        Ok(StickerMatcher { event })
    }

    /// Goes on with the search for the sticker in an image.
    pub fn detect(&self, image: &SearchedImage, step: SearchStep, event: SearchEvent) -> (next:
        Option<SearchStep>)
        ensures
            is_search_step(*image, step, event, next),
    {
        match (step, event) {
            (SearchStep::FindFeatures, SearchEvent::Features { keypoints, described }) => {
                if keypoints < MIN_GOOD_MATCHES_FOR_HOMOGRAPHY || !described {
                    return Some(
                        SearchStep::Finished(not_found(image, "not enough image features")),
                    );
                }
                Some(SearchStep::FindNearest)
            },
            (SearchStep::FindNearest, SearchEvent::Nearest { pairs }) => {
                let good = good_matches(&pairs);
                if good.len() < MIN_GOOD_MATCHES_FOR_HOMOGRAPHY {
                    return Some(
                        SearchStep::Finished(not_found(image, "not enough good sticker matches")),
                    );
                }
                Some(SearchStep::FitGeometry { matches: good })
            },
            (SearchStep::FitGeometry { matches }, SearchEvent::Geometry { found, mask }) => {
                if !found {
                    return Some(
                        SearchStep::Finished(not_found(image, "homography could not be estimated")),
                    );
                }
                let inliers: usize = match mask {
                    Some(m) => count_inliers(&m),
                    None => matches.len(),
                };
                Some(SearchStep::ScoreMatch { good_matches: matches.len(), inliers })
            },
            (
                SearchStep::ScoreMatch { good_matches, inliers },
                SearchEvent::Scored { confidence },
            ) => Some(
                SearchStep::Finished(
                    StickerDetection {
                        source_path: image.path.clone(),
                        source_width: image.width,
                        source_height: image.height,
                        found: true,
                        match_confidence: confidence.clamp_to(
                            Score { bits: 0 },
                            Score { bits: ONE_BITS },
                        ),
                        good_match_count: good_matches,
                        homography_valid: true,
                        has_warped_sticker: true,
                        note: None,
                    },
                ),
            ),
            _ => None,
        }
    }
}

fn not_found(image: &SearchedImage, reason: &str) -> (detection: StickerDetection)
    ensures
        is_not_found(detection, *image, reason@),
{
    StickerDetection {
        source_path: image.path.clone(),
        source_width: image.width,
        source_height: image.height,
        found: false,
        match_confidence: Score { bits: 0 },
        good_match_count: 0,
        homography_valid: false,
        has_warped_sticker: false,
        note: Some(text::owned(reason)),
    }
}

/// Each step of a search follows the one before it, from the first one on.
pub open spec fn is_search(
    image: SearchedImage,
    steps: Seq<SearchStep>,
    events: Seq<SearchEvent>,
) -> bool {
    &&& steps.len() == events.len() + 1
    &&& steps[0] is FindFeatures
    &&& forall|i: int|
        #![trigger events[i]]
        0 <= i < events.len() ==> is_search_step(image, steps[i], events[i], Some(steps[i + 1]))
}

/// Nothing is done about fewer matches than the geometry needs, and a sticker that is
/// found has that many, and a confidence that is neither below zero nor above one.
pub open spec fn has_enough_matches(step: SearchStep) -> bool {
    match step {
        SearchStep::FitGeometry { matches } => matches@.len() >= MIN_GOOD_MATCHES_FOR_HOMOGRAPHY,
        SearchStep::ScoreMatch { good_matches, inliers } => good_matches
            >= MIN_GOOD_MATCHES_FOR_HOMOGRAPHY,
        SearchStep::Finished(d) => {
            &&& d.found <==> d.has_warped_sticker
            &&& d.found <==> d.homography_valid
            &&& d.found <==> d.note is None
            &&& d.found ==> d.good_match_count >= MIN_GOOD_MATCHES_FOR_HOMOGRAPHY
            &&& !d.match_confidence.lt(Score { bits: 0 })
            &&& !(Score { bits: ONE_BITS }).lt(d.match_confidence)
        },
        _ => true,
    }
}

/// A sticker counts as found only with enough clear matches: whatever happens in a
/// search, no step of it goes on with fewer than the geometry needs, and the confidence
/// in what is found lies from zero to one.
pub proof fn geometry_needs_enough_matches(
    image: SearchedImage,
    steps: Seq<SearchStep>,
    events: Seq<SearchEvent>,
    i: int,
)
    requires
        is_search(image, steps, events),
        0 <= i < steps.len(),
    ensures
        has_enough_matches(steps[i]),
    decreases i,
{
    if i > 0 {
        geometry_needs_enough_matches(image, steps, events, i - 1);
        assert(is_search_step(image, steps[i - 1], events[i - 1], Some(steps[i])));
    }
}

/// What is kept of the nearest features: the nearest feature of every pair that has a
/// second one and whose nearest is below its limit, in the order of the pairs, and nothing
/// else. `places` lists the pairs that the matches come from.
pub proof fn kept_matches_are_the_nearest(pairs: Seq<NearestFeatures>) -> (places: Seq<int>)
    ensures
        places.len() == good_of(pairs).len(),
        forall|i: int, j: int|
            0 <= i < j < places.len() ==> #[trigger] places[i] < #[trigger] places[j],
        forall|i: int|
            #![trigger places[i]]
            0 <= i < places.len() ==> {
                let pair = pairs[places[i]];
                let kept = good_of(pairs)[i];
                &&& 0 <= places[i] < pairs.len()
                &&& pair.matches@.len() >= 2
                &&& kept == pair.matches@.first()
                &&& !kept.distance.nan()
                &&& !pair.limit.nan()
                &&& kept.distance.value() < pair.limit.value()
            },
        forall|p: int|
            #![trigger pairs[p]]
            0 <= p < pairs.len() && pairs[p].matches@.len() >= 2
                && !pairs[p].matches@.first().distance.nan() && !pairs[p].limit.nan()
                && pairs[p].matches@.first().distance.value() < pairs[p].limit.value()
                ==> places.contains(p),
    decreases pairs.len(),
{
    if pairs.len() == 0 {
        Seq::empty()
    } else {
        let rest = pairs.drop_last();
        let last = pairs.len() - 1;
        let before = kept_matches_are_the_nearest(rest);
        let clear = is_good(pairs.last());
        let places = if clear {
            before.push(last)
        } else {
            before
        };
        assert forall|i: int|
            #![trigger places[i]]
            0 <= i < places.len() implies {
            let pair = pairs[places[i]];
            let kept = good_of(pairs)[i];
            &&& 0 <= places[i] < pairs.len()
            &&& pair.matches@.len() >= 2
            &&& kept == pair.matches@.first()
            &&& !kept.distance.nan()
            &&& !pair.limit.nan()
            &&& kept.distance.value() < pair.limit.value()
        } by {
            if i < before.len() {
                assert(places[i] == before[i]);
                assert(rest[before[i]] == pairs[places[i]]);
                assert(good_of(pairs)[i] == good_of(rest)[i]);
            }
        }
        assert forall|p: int|
            #![trigger pairs[p]]
            0 <= p < pairs.len() && pairs[p].matches@.len() >= 2
                && !pairs[p].matches@.first().distance.nan() && !pairs[p].limit.nan()
                && pairs[p].matches@.first().distance.value()
                < pairs[p].limit.value() implies places.contains(p) by {
            if p < last {
                assert(rest[p] == pairs[p]);
                assert(before.contains(p));
                let k = choose|k: int| 0 <= k < before.len() && before[k] == p;
                assert(places[k] == p);
            } else {
                assert(places[before.len() as int] == p);
            }
        }
        places
    }
}

/// A search goes on with eight features or matches, and with no fewer: from the features
/// of the image, where they are described, to the nearest ones, and from these to the
/// geometry of the matches that were kept. It is found just where there is a geometry.
pub proof fn searches_go_on_with_eight(
    image: SearchedImage,
    step: SearchStep,
    event: SearchEvent,
    next: SearchStep,
)
    requires
        is_search_step(image, step, event, Some(next)),
    ensures
        (step, event) matches (
            SearchStep::FindFeatures,
            SearchEvent::Features { keypoints, described },
        ) ==> (next is FindNearest <==> keypoints >= 8 && described) && (next is Finished <==> !(
        keypoints >= 8 && described)),
        (step, event) matches (SearchStep::FindNearest, SearchEvent::Nearest { pairs }) ==> (
        next is FitGeometry <==> good_of(pairs@).len() >= 8) && (next is Finished <==> good_of(
            pairs@,
        ).len() < 8) && (next matches SearchStep::FitGeometry { matches } ==> matches@ == good_of(
            pairs@,
        )),
        (step, event) matches (
            SearchStep::FitGeometry { matches },
            SearchEvent::Geometry { found, mask },
        ) ==> (next is ScoreMatch <==> found) && (next is Finished <==> !found) && (
        next matches SearchStep::ScoreMatch { good_matches, inliers } ==> good_matches
            == matches@.len()),
        next matches SearchStep::Finished(d) ==> d.source_path@ == image.path@ && d.source_width
            == image.width && d.source_height == image.height && (d.found <==> step is ScoreMatch)
            && (!d.found ==> d.good_match_count == 0 && d.match_confidence.bits == 0),
        (step, next) matches (
            SearchStep::ScoreMatch { good_matches, inliers },
            SearchStep::Finished(d),
        ) ==> d.good_match_count == good_matches && (event matches SearchEvent::Scored { confidence }
            && (!confidence.lt(Score { bits: 0 }) && !(Score { bits: 0x3f80_0000 }).lt(confidence)
            ==> d.match_confidence == confidence)),
{
}

/// The matches that fit a geometry are counted one by one: each byte of the mask that is
/// not zero is one.
pub proof fn inliers_are_counted_one_by_one(mask: Seq<u8>, more: Seq<u8>, byte: u8)
    ensures
        set_entries(mask + more) == set_entries(mask) + set_entries(more),
        byte != 0 ==> set_entries(seq![byte]) == 1,
        byte == 0 ==> set_entries(seq![byte]) == 0,
        set_entries(mask) <= mask.len(),
{
    let kept = |m: u8| m != 0;
    Seq::filter_distributes_over_add(mask, more, kept);
    mask.lemma_filter_len(kept);
    reveal(Seq::filter);
    assert(seq![byte].drop_last() =~= Seq::<u8>::empty());
    assert(Seq::<u8>::empty().filter(kept) =~= Seq::<u8>::empty());
}

/// A search that ends without the sticker tells at which step: there were too few features in
/// the image, too few matches, or no geometry. Of the matches those that a mask marks fit the
/// geometry, and all of them where there is no mask.
pub proof fn searches_tell_where_they_ended(
    image: SearchedImage,
    step: SearchStep,
    event: SearchEvent,
    next: SearchStep,
)
    requires
        is_search_step(image, step, event, Some(next)),
    ensures
        next matches SearchStep::Finished(d) ==> {
            &&& step is FindFeatures ==> (d.note matches Some(n) && n@
                == "not enough image features"@)
            &&& step is FindNearest ==> (d.note matches Some(n) && n@
                == "not enough good sticker matches"@)
            &&& step is FitGeometry ==> (d.note matches Some(n) && n@
                == "homography could not be estimated"@)
            &&& step is ScoreMatch ==> d.note is None && d.has_warped_sticker && d.homography_valid
            &&& !(step is ScoreMatch) ==> !d.has_warped_sticker && !d.homography_valid
        },
        (step, event) matches (
            SearchStep::FitGeometry { matches },
            SearchEvent::Geometry { found, mask },
        ) ==> (next matches SearchStep::ScoreMatch { good_matches, inliers } ==> match mask {
            Some(m) => inliers == set_entries(m@),
            None => inliers == matches@.len(),
        }),
        (step, event) matches (
            SearchStep::ScoreMatch { good_matches, inliers },
            SearchEvent::Scored { confidence },
        ) ==> (next matches SearchStep::Finished(d) && (confidence.lt(Score { bits: 0 })
            ==> d.match_confidence.bits == 0) && ((Score { bits: 0x3f80_0000 }).lt(confidence)
            ==> d.match_confidence.bits == 0x3f80_0000)),
{
    if let (
        SearchStep::ScoreMatch { good_matches, inliers },
        SearchEvent::Scored { confidence },
    ) = (step, event) {
        crate::score::numbers_compare_by_their_bits(
            Score { bits: 0 },
            Score { bits: 0x3f80_0000 },
        );
    }
}

}
