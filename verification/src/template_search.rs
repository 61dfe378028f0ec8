//! Looking for the event's sticker in an image: the sticker's template is laid over the
//! image at several sizes, and the best place is taken for the sticker.

use crate::image_ops;
use crate::raster;
use crate::raster::Raster;
use crate::score::Score;
use vstd::prelude::*;

verus! {

/// The longest side of an image that a template is looked for in.
pub const MATCH_MAX_SIDE: u32 = 900;

/// The longest side of a template.
pub const TEMPLATE_MAX_SIDE: u32 = 900;

/// The score from which on a template counts as found: 0.27.
pub const STICKER_MIN_SCORE_BITS: u32 = 0x3e8a_3d71;

/// A picture in shades of gray, row by row.
#[derive(Debug)]
pub struct GrayImage {
    pub width: u32,
    pub height: u32,
    pub values: Vec<u8>,
}

impl GrayImage {
    /// There are as many values as the size asks for.
    pub open spec fn wf(&self) -> bool {
        self.values@.len() == self.width * self.height
    }
}

/// The brightness that the `image` crate gives every pixel of a picture with three values
/// for each.
pub uninterp spec fn luma_values(width: u32, height: u32, values: Seq<u8>) -> Seq<u8>;

/// `image::DynamicImage::to_luma8` on a picture with three values for each pixel: the
/// named brightness, one value for each pixel. It is computed in single precision.
#[verifier::external_body]
fn convert_to_luma(width: u32, height: u32, values: Vec<u8>) -> (luma: Vec<u8>)
    requires
        values@.len() == width * height * 3,
    ensures
        luma@ == luma_values(width, height, values@),
        luma@.len() == width * height,
{
    let picture = image::RgbImage::from_raw(width, height, values).unwrap();
    image::DynamicImage::ImageRgb8(picture).to_luma8().into_raw()
}

/// The brightness that the `image` crate gives every pixel of a picture with four values
/// of 16 bits for each, of which the high byte comes first.
pub uninterp spec fn deep_luma_values(width: u32, height: u32, bytes: Seq<u8>) -> Seq<u8>;

/// `image::DynamicImage::to_luma8` on a picture with four values of 16 bits for each
/// pixel: the named brightness, one value for each pixel. It is computed in single
/// precision.
#[verifier::external_body]
fn convert_deep_to_luma(width: u32, height: u32, bytes: &Vec<u8>) -> (luma: Vec<u8>)
    requires
        bytes@.len() == width * height * 8,
    ensures
        luma@ == deep_luma_values(width, height, bytes@),
        luma@.len() == width * height,
{
    let values = bytes.chunks_exact(2).map(|b| u16::from_be_bytes([b[0], b[1]])).collect();
    let picture = image::ImageBuffer::from_raw(width, height, values).unwrap();
    image::DynamicImage::ImageRgba16(picture).to_luma8().into_raw()
}

/// The brightness of every pixel of a picture. How opaque it is does not matter.
pub open spec fn brightness(img: Raster) -> Seq<u8> {
    if img.pixel_bytes == 8 {
        deep_luma_values(img.width, img.height, img.pixels@)
    } else {
        luma_values(
            img.width,
            img.height,
            raster::color_values(img.pixels@, img.pixel_bytes as int, img.width * img.height),
        )
    }
}

/// The picture in shades of gray.
pub fn to_luma(img: &Raster) -> (gray: GrayImage)
    requires
        img.wf(),
    ensures
        gray.wf(),
        gray.width == img.width,
        gray.height == img.height,
        gray.values@ == brightness(*img),
{
    let values = if img.pixel_bytes == 8 {
        convert_deep_to_luma(img.width, img.height, &img.pixels)
    } else {
        convert_to_luma(img.width, img.height, img.rgb_values())
    };
    GrayImage { width: img.width, height: img.height, values }
}

/// What the `image` crate makes of a gray picture that it resizes with its triangle
/// filter.
pub uninterp spec fn resampled_gray(
    width: u32,
    height: u32,
    values: Seq<u8>,
    new_width: u32,
    new_height: u32,
) -> Seq<u8>;

/// `image::imageops::resize` with the triangle filter, on a gray picture: the named
/// values for the new size, and a copy where that is the old size. Sizes for which the
/// picture, or what is computed on the way, could not be held in memory are left out,
/// and sides on which the filter could find no pixel.
#[verifier::external_body]
fn resize_gray_values(
    width: u32,
    height: u32,
    values: &Vec<u8>,
    new_width: u32,
    new_height: u32,
) -> (resized: Vec<u8>)
    requires
        values@.len() == width * height,
        image_ops::can_resize(width, height, new_width, new_height),
    ensures
        resized@ == resampled_gray(width, height, values@, new_width, new_height),
        resized@.len() == new_width * new_height,
        new_width == width && new_height == height ==> resized@ == values@,
{
    let picture = image::GrayImage::from_raw(width, height, values.clone()).unwrap();
    let filter = image::imageops::FilterType::Triangle;
    image::imageops::resize(&picture, new_width, new_height, filter).into_raw()
}

/// A gray picture, resized where it is too large.
pub open spec fn shrunk_values(gray: GrayImage, max_side: u32, size: (u32, u32)) -> Seq<u8> {
    if gray.width > max_side || gray.height > max_side {
        resampled_gray(gray.width, gray.height, gray.values@, size.0, size.1)
    } else {
        gray.values@
    }
}

/// Resizes a gray picture to a size, where one of its sides is too long.
pub fn shrink(gray: GrayImage, max_side: u32, size: (u32, u32)) -> (shrunk: GrayImage)
    requires
        gray.wf(),
        gray.width > max_side || gray.height > max_side ==> image_ops::can_resize(
            gray.width,
            gray.height,
            size.0,
            size.1,
        ),
    ensures
        shrunk.wf(),
        shrunk.values@ == shrunk_values(gray, max_side, size),
        (shrunk.width, shrunk.height) == (if gray.width > max_side || gray.height > max_side {
            size
        } else {
            (gray.width, gray.height)
        }),
{
    if image_ops::exceeds(gray.width, gray.height, max_side) {
        let values = resize_gray_values(gray.width, gray.height, &gray.values, size.0, size.1);
        GrayImage { width: size.0, height: size.1, values }
    } else {
        gray
    }
}

/// A template made ready to be looked for: in shades of gray, and not too large.
pub fn prepare_template_image(template: &Raster, size: (u32, u32)) -> (gray: GrayImage)
    requires
        template.wf(),
        template.width > TEMPLATE_MAX_SIDE || template.height > TEMPLATE_MAX_SIDE
            ==> image_ops::can_resize(template.width, template.height, size.0, size.1),
    ensures
        gray.wf(),
        ({
            if template.width > TEMPLATE_MAX_SIDE || template.height > TEMPLATE_MAX_SIDE {
                &&& (gray.width, gray.height) == size
                &&& gray.values@ == resampled_gray(
                    template.width,
                    template.height,
                    brightness(*template),
                    size.0,
                    size.1,
                )
            } else {
                &&& (gray.width, gray.height) == (template.width, template.height)
                &&& gray.values@ == brightness(*template)
            }
        }),
{
    shrink(to_luma(template), TEMPLATE_MAX_SIDE, size)
}

/// A rectangle of pixels.
#[derive(Clone, Copy, Debug, PartialEq, Eq, Structural)]
pub struct PixelRect {
    pub x: u32,
    pub y: u32,
    pub w: u32,
    pub h: u32,
}

/// Where a template was found, and how well it matches there.
#[derive(Clone, Copy, Debug, PartialEq, Eq, Structural)]
pub struct MatchRect {
    pub x: u32,
    pub y: u32,
    pub w: u32,
    pub h: u32,
    pub score: Score,
}

/// Whether a template of this size can be looked for in an image: it must not be
/// too small to tell anything, and smaller than the image.
pub fn template_fits(
    template_width: u32,
    template_height: u32,
    image_width: u32,
    image_height: u32,
) -> (fits: bool)
    ensures
        fits == (template_width >= 20 && template_height >= 14 && template_width < image_width
            && template_height < image_height),
{
    template_width >= 20 && template_height >= 14 && template_width < image_width
        && template_height < image_height
}

/// The better of the match so far and another: the other one only if its score is
/// above.
pub open spec fn better(best: Option<MatchRect>, candidate: MatchRect) -> MatchRect {
    match best {
        Some(current) => if current.score.lt(candidate.score) {
            candidate
        } else {
            current
        },
        None => candidate,
    }
}

/// The best of some matches, the first of equally good ones.
pub open spec fn best_match(matches: Seq<MatchRect>) -> Option<MatchRect>
    decreases matches.len(),
{
    if matches.len() == 0 {
        None
    } else {
        Some(better(best_match(matches.drop_last()), matches.last()))
    }
}

/// The patterns of the scores that the `imageproc` crate gives a template at each place
/// of an image, row by row.
pub uninterp spec fn template_scores(
    width: u32,
    height: u32,
    image: Seq<u8>,
    template_width: u32,
    template_height: u32,
    template: Seq<u8>,
) -> Seq<u32>;

/// `imageproc::template_matching::match_template_parallel` with normalized cross
/// correlation: the named scores, as their patterns, one for each place that the
/// template can have in the image. Templates that are empty or not smaller than the
/// image are left out.
#[verifier::external_body]
fn match_template(
    width: u32,
    height: u32,
    image: &Vec<u8>,
    template_width: u32,
    template_height: u32,
    template: Vec<u8>,
) -> (scores: Vec<u32>)
    requires
        image@.len() == width * height,
        template@.len() == template_width * template_height,
        0 < template_width < width,
        0 < template_height < height,
        width * height * 4 <= isize::MAX,
    ensures
        scores@ == template_scores(
            width,
            height,
            image@,
            template_width,
            template_height,
            template@,
        ),
        scores@.len() == (width - template_width + 1) * (height - template_height + 1),
{
    let image = image::GrayImage::from_raw(width, height, image.clone()).unwrap();
    let template =
        image::GrayImage::from_raw(template_width, template_height, template).unwrap();
    let method = imageproc::template_matching::MatchTemplateMethod::CrossCorrelationNormalized;
    let scores =
        imageproc::template_matching::match_template_parallel(&image, &template, method);
    scores.into_raw().into_iter().map(|score| score.to_bits()).collect()
}

/// The first place with the largest score.
pub open spec fn peak(scores: Seq<u32>) -> int
    decreases scores.len(),
{
    if scores.len() <= 1 {
        0
    } else {
        let before = peak(scores.drop_last());
        if (Score { bits: scores[before] }).lt(Score { bits: scores.last() }) {
            scores.len() - 1
        } else {
            before
        }
    }
}

fn find_peak(scores: &Vec<u32>) -> (at: usize)
    requires
        scores@.len() > 0,
    ensures
        at == peak(scores@),
        at < scores@.len(),
{
    let mut best: usize = 0;
    let mut i: usize = 1;
    while i < scores.len()
        invariant
            1 <= i <= scores@.len(),
            best < i,
            best == peak(scores@.take(i as int)),
        decreases scores@.len() - i,
    {
        proof {
            assert(scores@.take(i + 1).drop_last() =~= scores@.take(i as int));
            assert(scores@.take(i + 1).last() == scores@[i as int]);
        }
        let so_far = Score { bits: scores[best] };
        if so_far.is_below(Score { bits: scores[i] }) {
            best = i;
        }
        i += 1;
    }
    assert(scores@.take(i as int) =~= scores@);
    best
}

/// A template of this size can be looked for in an image.
pub open spec fn is_searchable(size: (u32, u32), width: u32, height: u32) -> bool {
    size.0 >= 20 && size.1 >= 14 && size.0 < width && size.1 < height
}

/// The best place for a template of a size.
pub open spec fn match_at(image: GrayImage, template: GrayImage, size: (u32, u32)) -> MatchRect {
    let scores = template_scores(
        image.width,
        image.height,
        image.values@,
        size.0,
        size.1,
        resampled_gray(template.width, template.height, template.values@, size.0, size.1),
    );
    let across = image.width - size.0 + 1;
    MatchRect {
        x: (peak(scores) % across) as u32,
        y: (peak(scores) / across) as u32,
        w: size.0,
        h: size.1,
        score: Score { bits: scores[peak(scores)] },
    }
}

/// The best places for a template at all sizes at which it can be looked for.
pub open spec fn matches_at(
    image: GrayImage,
    template: GrayImage,
    sizes: Seq<(u32, u32)>,
) -> Seq<MatchRect>
    decreases sizes.len(),
{
    if sizes.len() == 0 {
        Seq::empty()
    } else {
        let before = matches_at(image, template, sizes.drop_last());
        if is_searchable(sizes.last(), image.width, image.height) {
            before.push(match_at(image, template, sizes.last()))
        } else {
            before
        }
    }
}

/// An image and a template can be held in memory while the template is looked for at
/// some sizes.
pub open spec fn can_search(image: GrayImage, template: GrayImage, sizes: Seq<(u32, u32)>) -> bool {
    &&& image.width * image.height * 4 <= isize::MAX
    &&& forall|i: int|
        0 <= i < sizes.len() && is_searchable(#[trigger] sizes[i], image.width, image.height)
            ==> image_ops::can_resize(template.width, template.height, sizes[i].0, sizes[i].1)
}

/// The best place for a template in an image, at any of the sizes.
pub fn best_template_match(
    image: &GrayImage,
    template: &GrayImage,
    sizes: &Vec<(u32, u32)>,
) -> (best: Option<MatchRect>)
    requires
        image.wf(),
        template.wf(),
        can_search(*image, *template, sizes@),
    ensures
        best == best_match(matches_at(*image, *template, sizes@)),
        best matches Some(m) ==> m.x + m.w <= image.width && m.y + m.h <= image.height,
{
    let mut best: Option<MatchRect> = None;
    let mut i: usize = 0;
    assert(sizes@.take(0) =~= Seq::<(u32, u32)>::empty());
    while i < sizes.len()
        invariant
            i <= sizes@.len(),
            image.wf(),
            template.wf(),
            can_search(*image, *template, sizes@),
            best == best_match(matches_at(*image, *template, sizes@.take(i as int))),
            best matches Some(m) ==> m.x + m.w <= image.width && m.y + m.h <= image.height,
        decreases sizes@.len() - i,
    {
        let (tw, th): (u32, u32) = sizes[i];
        let ghost matches = matches_at(*image, *template, sizes@.take(i as int));
        proof {
            assert(sizes@.take(i + 1).drop_last() =~= sizes@.take(i as int));
            assert(sizes@.take(i + 1).last() == sizes@[i as int]);
        }
        if template_fits(tw, th, image.width, image.height) {
            let resized = resize_gray_values(template.width, template.height, &template.values, tw, th);
            let scores = match_template(image.width, image.height, &image.values, tw, th, resized);
            let across: usize = (image.width - tw + 1) as usize;
            proof {
                assert(scores@.len() > 0) by (nonlinear_arith)
                    requires
                        scores@.len() == (image.width - tw + 1) * (image.height - th + 1),
                        image.width > tw,
                        image.height > th,
                ;
            }
            let at: usize = find_peak(&scores);
            let ghost down = image.height - th + 1;
            assert(at / across < down) by (nonlinear_arith)
                requires
                    0 <= at < across * down,
                    across > 0,
            ;
            let candidate = MatchRect {
                x: (at % across) as u32,
                y: (at / across) as u32,
                w: tw,
                h: th,
                score: Score { bits: scores[at] },
            };
            proof {
                assert(candidate == match_at(*image, *template, (tw, th)));
                assert(matches.push(candidate).drop_last() =~= matches);
            }
            let replace = match best {
                Some(current) => current.score.is_below(candidate.score),
                None => true,
            };
            if replace {
                best = Some(candidate);
            }
        }
        i += 1;
    }
    assert(sizes@.take(i as int) =~= sizes@);
    best
}

/// The best match, if it is good enough to count as the sticker.
pub fn matched_sticker(best: Option<MatchRect>) -> (sticker: Option<MatchRect>)
    ensures
        sticker == (match best {
            Some(m) => if m.score.lt(Score { bits: STICKER_MIN_SCORE_BITS }) {
                None
            } else {
                Some(m)
            },
            None => None,
        }),
{
    match best {
        Some(m) => if m.score.is_below(Score { bits: STICKER_MIN_SCORE_BITS }) {
            None
        } else {
            Some(m)
        },
        None => None,
    }
}

/// The rectangles that there are, each once, in the order in which they first occur.
pub open spec fn distinct_rects(rects: Seq<Option<PixelRect>>) -> Seq<PixelRect>
    decreases rects.len(),
{
    if rects.len() == 0 {
        Seq::empty()
    } else {
        let before = distinct_rects(rects.drop_last());
        match rects.last() {
            Some(rect) => if before.contains(rect) {
                before
            } else {
                before.push(rect)
            },
            None => before,
        }
    }
}

fn keep_distinct(rects: &Vec<Option<PixelRect>>) -> (crops: Vec<PixelRect>)
    ensures
        crops@ == distinct_rects(rects@),
        crops@.no_duplicates(),
{
    let mut crops: Vec<PixelRect> = Vec::new();
    let mut i: usize = 0;
    assert(rects@.take(0) =~= Seq::<Option<PixelRect>>::empty());
    while i < rects.len()
        invariant
            i <= rects@.len(),
            crops@ == distinct_rects(rects@.take(i as int)),
            crops@.no_duplicates(),
        decreases rects@.len() - i,
    {
        proof {
            assert(rects@.take(i + 1).drop_last() =~= rects@.take(i as int));
            assert(rects@.take(i + 1).last() == rects@[i as int]);
        }
        match rects[i] {
            Some(rect) => {
                let mut seen = false;
                let mut j: usize = 0;
                while j < crops.len()
                    invariant
                        j <= crops@.len(),
                        seen == crops@.take(j as int).contains(rect),
                    decreases crops@.len() - j,
                {
                    let same = crops[j] == rect;
                    proof {
                        let now = crops@.take(j + 1);
                        assert(now =~= crops@.take(j as int).push(crops@[j as int]));
                        if same {
                            assert(now[j as int] == rect);
                        }
                        if crops@.take(j as int).contains(rect) {
                            let k = choose|k: int|
                                0 <= k < j && crops@.take(j as int)[k] == rect;
                            assert(now[k] == rect);
                        }
                        if now.contains(rect) && !same {
                            let k = choose|k: int| 0 <= k < now.len() && now[k] == rect;
                            assert(crops@.take(j as int)[k] == rect);
                        }
                    }
                    if same {
                        seen = true;
                    }
                    j += 1;
                }
                assert(crops@.take(j as int) =~= crops@);
                if !seen {
                    crops.push(rect);
                }
            },
            None => {},
        }
        i += 1;
    }
    assert(rects@.take(i as int) =~= rects@);
    crops
}

/// A rectangle lies inside a picture.
pub open spec fn rect_inside(rect: PixelRect, width: u32, height: u32) -> bool {
    rect.x + rect.w <= width && rect.y + rect.h <= height
}

proof fn lemma_distinct_come_from(rects: Seq<Option<PixelRect>>)
    ensures
        forall|i: int|
            0 <= i < distinct_rects(rects).len() ==> rects.contains(
                Some(#[trigger] distinct_rects(rects)[i]),
            ),
    decreases rects.len(),
{
    if rects.len() > 0 {
        lemma_distinct_come_from(rects.drop_last());
        assert forall|i: int| 0 <= i < distinct_rects(rects).len() implies rects.contains(
            Some(#[trigger] distinct_rects(rects)[i]),
        ) by {
            let before = distinct_rects(rects.drop_last());
            let rect = distinct_rects(rects)[i];
            if i < before.len() {
                assert(before[i] == rect);
                let k = choose|k: int|
                    0 <= k < rects.drop_last().len() && rects.drop_last()[k] == Some(rect);
                assert(rects[k] == Some(rect));
            } else {
                assert(rects[rects.len() - 1] == Some(rect));
            }
        }
    }
}

/// The crops to read around the sticker: one for each rectangle, but no rectangle twice.
pub fn sticker_guided_crops(img: &Raster, rects: &Vec<Option<PixelRect>>) -> (crops: Vec<Raster>)
    requires
        img.wf(),
        forall|i: int|
            #![trigger rects@[i]]
            0 <= i < rects@.len() ==> (rects@[i] matches Some(rect) ==> rect_inside(
                rect,
                img.width,
                img.height,
            )),
    ensures
        crops@.len() == distinct_rects(rects@).len(),
        forall|i: int|
            #![trigger crops@[i]]
            0 <= i < crops@.len() ==> crops@[i].wf() && raster::is_cut(
                *img,
                crops@[i],
                distinct_rects(rects@)[i].x,
                distinct_rects(rects@)[i].y,
                distinct_rects(rects@)[i].w,
                distinct_rects(rects@)[i].h,
            ),
{
    let kept = keep_distinct(rects);
    let mut crops: Vec<Raster> = Vec::new();
    let mut i: usize = 0;
    proof {
        lemma_distinct_come_from(rects@);
    }
    while i < kept.len()
        invariant
            i <= kept@.len(),
            img.wf(),
            kept@ == distinct_rects(rects@),
            forall|j: int|
                0 <= j < kept@.len() ==> rects@.contains(Some(#[trigger] kept@[j])),
            forall|j: int|
                #![trigger rects@[j]]
                0 <= j < rects@.len() ==> (rects@[j] matches Some(rect) ==> rect_inside(
                    rect,
                    img.width,
                    img.height,
                )),
            crops@.len() == i,
            forall|j: int|
                #![trigger crops@[j]]
                0 <= j < i ==> crops@[j].wf() && raster::is_cut(
                    *img,
                    crops@[j],
                    kept@[j].x,
                    kept@[j].y,
                    kept@[j].w,
                    kept@[j].h,
                ),
        decreases kept@.len() - i,
    {
        let rect = kept[i];
        proof {
            let k = choose|k: int| 0 <= k < rects@.len() && rects@[k] == Some(rect);
            assert(rects@[k] == Some(rect));
        }
        crops.push(raster::cut_raster(img, rect.x, rect.y, rect.w, rect.h));
        i += 1;
    }
    crops
}

/// The peak is as good as any place, and better than all before it, where no score is
/// missing.
pub proof fn peak_is_the_best_place(scores: Seq<u32>, other: int)
    requires
        0 <= other < scores.len(),
        forall|i: int| 0 <= i < scores.len() ==> !(Score { bits: #[trigger] scores[i] }).nan(),
    ensures
        0 <= peak(scores) < scores.len(),
        !(Score { bits: scores[peak(scores)] }).lt(Score { bits: scores[other] }),
        other < peak(scores) ==> (Score { bits: scores[other] }).lt(
            Score { bits: scores[peak(scores)] },
        ),
    decreases scores.len(),
{
    if scores.len() > 1 {
        let rest = scores.drop_last();
        assert forall|i: int| 0 <= i < rest.len() implies !(Score {
            bits: #[trigger] rest[i],
        }).nan() by {
            assert(rest[i] == scores[i]);
        }
        peak_is_the_best_place(rest, 0);
        if other < rest.len() {
            peak_is_the_best_place(rest, other);
        }
    }
}

/// A match counts as the sticker from a score of 0.27 on, the nearest single-precision
/// number. Images and templates are looked at with sides of 900 pixels at most.
pub proof fn weak_matches_are_no_stickers(score: Score)
    requires
        score.bits <= 0x7f80_0000,
    ensures
        score.lt(Score { bits: STICKER_MIN_SCORE_BITS }) <==> score.bits < 0x3e8a_3d71,
        MATCH_MAX_SIDE == 900,
        TEMPLATE_MAX_SIDE == 900,
{
    crate::score::numbers_compare_by_their_bits(score, Score { bits: STICKER_MIN_SCORE_BITS });
}

/// The best of some matches is one of them, none has a higher score, and those before it all
/// have a lower one.
pub proof fn the_best_match_is_taken(matches: Seq<MatchRect>, other: int) -> (at: int)
    requires
        0 <= other < matches.len(),
        forall|i: int| 0 <= i < matches.len() ==> !(#[trigger] matches[i]).score.nan(),
    ensures
        0 <= at < matches.len(),
        best_match(matches) == Some(matches[at]),
        matches[other].score.value() <= matches[at].score.value(),
        other < at ==> matches[other].score.value() < matches[at].score.value(),
    decreases matches.len(),
{
    let rest = matches.drop_last();
    let last = matches.len() - 1;
    assert(matches[last] == matches.last());
    if rest.len() == 0 {
        assert(best_match(rest) is None);
        last
    } else {
        assert forall|i: int| 0 <= i < rest.len() implies !(#[trigger] rest[i]).score.nan() by {
            assert(rest[i] == matches[i]);
        }
        let seen = if other < rest.len() {
            other
        } else {
            0
        };
        let before = the_best_match_is_taken(rest, seen);
        assert(rest[before] == matches[before]);
        assert(rest[seen] == matches[seen]);
        if matches[before].score.lt(matches[last].score) {
            last
        } else {
            before
        }
    }
}

/// The best place for a template of a size is where its score is the highest, counted row by
/// row over the places that it can have in the image, and the first of equally good ones.
pub proof fn templates_are_found_where_they_score_highest(
    image: GrayImage,
    template: GrayImage,
    size: (u32, u32),
    x: int,
    y: int,
)
    requires
        0 < size.0 < image.width,
        0 < size.1 < image.height,
        0 <= x <= image.width - size.0,
        0 <= y <= image.height - size.1,
        ({
            let scores = template_scores(
                image.width,
                image.height,
                image.values@,
                size.0,
                size.1,
                resampled_gray(template.width, template.height, template.values@, size.0, size.1),
            );
            &&& scores.len() == (image.width - size.0 + 1) * (image.height - size.1 + 1)
            &&& forall|i: int|
                0 <= i < scores.len() ==> !(Score { bits: #[trigger] scores[i] }).nan()
        }),
    ensures
        ({
            let scores = template_scores(
                image.width,
                image.height,
                image.values@,
                size.0,
                size.1,
                resampled_gray(template.width, template.height, template.values@, size.0, size.1),
            );
            let found = match_at(image, template, size);
            let across = image.width - size.0 + 1;
            &&& found.w == size.0
            &&& found.h == size.1
            &&& found.x + found.w <= image.width
            &&& found.y + found.h <= image.height
            &&& found.score.bits == scores[found.y * across + found.x]
            &&& (Score { bits: scores[y * across + x] }).value() <= found.score.value()
            &&& y < found.y || (y == found.y && x < found.x) ==> (Score {
                bits: scores[y * across + x],
            }).value() < found.score.value()
        }),
{
    let scores = template_scores(
        image.width,
        image.height,
        image.values@,
        size.0,
        size.1,
        resampled_gray(template.width, template.height, template.values@, size.0, size.1),
    );
    let across = image.width - size.0 + 1;
    let down = image.height - size.1 + 1;
    let place = y * across + x;
    assert(0 <= place < across * down) by (nonlinear_arith)
        requires
            0 <= x < across,
            0 <= y < down,
            place == y * across + x,
    ;
    peak_is_the_best_place(scores, place);
    let best = peak(scores);
    vstd::arithmetic::div_mod::lemma_fundamental_div_mod(best, across);
    let row = best / across;
    let column = best % across;
    assert(across * row == row * across) by (nonlinear_arith);
    assert(0 <= row < down) by (nonlinear_arith)
        requires
            best == row * across + column,
            0 <= column < across,
            0 <= best < across * down,
    ;
    let found = match_at(image, template, size);
    assert(found.x == column && found.y == row);
    if y < row {
        assert(place < best) by (nonlinear_arith)
            requires
                y < row,
                0 <= x < across,
                0 <= column,
                place == y * across + x,
                best == row * across + column,
        ;
    }
}

/// A template is looked for at every size that is at least 20 pixels wide and 14 high and
/// smaller than the image both ways, and at no other, in the order of the sizes.
pub proof fn templates_are_looked_for_at_fitting_sizes(
    image: GrayImage,
    template: GrayImage,
    a: Seq<(u32, u32)>,
    b: Seq<(u32, u32)>,
    size: (u32, u32),
)
    ensures
        matches_at(image, template, a + b) == matches_at(image, template, a) + matches_at(
            image,
            template,
            b,
        ),
        20 <= size.0 < image.width && 14 <= size.1 < image.height ==> matches_at(
            image,
            template,
            seq![size],
        ) == seq![match_at(image, template, size)],
        size.0 < 20 || size.1 < 14 || size.0 >= image.width || size.1 >= image.height
            ==> matches_at(image, template, seq![size]).len() == 0,
    decreases b.len(),
{
    reveal_with_fuel(matches_at, 2);
    assert(seq![size].drop_last() =~= Seq::<(u32, u32)>::empty());
    assert(Seq::<MatchRect>::empty().push(match_at(image, template, size)) =~= seq![
        match_at(image, template, size),
    ]);
    if b.len() == 0 {
        assert(a + b =~= a);
        assert(matches_at(image, template, a) + matches_at(image, template, b) =~= matches_at(
            image,
            template,
            a,
        ));
    } else {
        templates_are_looked_for_at_fitting_sizes(image, template, a, b.drop_last(), size);
        assert((a + b).drop_last() =~= a + b.drop_last());
        assert((a + b).last() == b.last());
        assert(matches_at(image, template, a + b) =~= matches_at(image, template, a) + matches_at(
            image,
            template,
            b,
        ));
    }
}

/// Every rectangle that there is is kept, and none twice.
pub proof fn every_rectangle_is_kept_once(rects: Seq<Option<PixelRect>>, rect: PixelRect)
    ensures
        distinct_rects(rects).contains(rect) <==> rects.contains(Some(rect)),
        distinct_rects(rects).no_duplicates(),
    decreases rects.len(),
{
    lemma_distinct_come_from(rects);
    if distinct_rects(rects).contains(rect) {
        let i = choose|i: int| 0 <= i < distinct_rects(rects).len() && distinct_rects(rects)[i] == rect;
        assert(rects.contains(Some(distinct_rects(rects)[i])));
    }
    if rects.len() > 0 {
        let rest = rects.drop_last();
        every_rectangle_is_kept_once(rest, rect);
        let before = distinct_rects(rest);
        if rects.contains(Some(rect)) {
            let k = choose|k: int| 0 <= k < rects.len() && rects[k] == Some(rect);
            if k < rest.len() {
                assert(rest[k] == Some(rect));
                assert(rest.contains(Some(rect)));
                let i = choose|i: int| 0 <= i < before.len() && before[i] == rect;
                assert(distinct_rects(rects)[i] == rect);
            } else if !before.contains(rect) {
                assert(distinct_rects(rects)[before.len() as int] == rect);
            }
        }
    }
}

/// A gray picture with no side longer than the limit stays as it is; any other one is
/// resized to the size that was asked for.
pub proof fn small_pictures_are_not_resized(gray: GrayImage, max_side: u32, size: (u32, u32))
    ensures
        gray.width <= max_side && gray.height <= max_side ==> shrunk_values(gray, max_side, size)
            == gray.values@,
        gray.width > max_side ==> shrunk_values(gray, max_side, size) == resampled_gray(
            gray.width,
            gray.height,
            gray.values@,
            size.0,
            size.1,
        ),
        gray.height > max_side ==> shrunk_values(gray, max_side, size) == resampled_gray(
            gray.width,
            gray.height,
            gray.values@,
            size.0,
            size.1,
        ),
{
}

/// Pictures that differ only in how opaque they are are equally bright.
pub proof fn opacity_does_not_change_the_brightness(a: Raster, b: Raster)
    requires
        a.wf(),
        b.wf(),
        a.pixel_bytes == 4,
        b.pixel_bytes == 4,
        a.width == b.width,
        a.height == b.height,
        forall|i: int|
            0 <= i < a.pixels@.len() && i % 4 != 3 ==> #[trigger] a.pixels@[i] == b.pixels@[i],
    ensures
        brightness(a) == brightness(b),
{
    let count = a.width * a.height;
    let ca = raster::color_values(a.pixels@, 4, count);
    let cb = raster::color_values(b.pixels@, 4, count);
    assert forall|i: int| 0 <= i < ca.len() implies ca[i] == cb[i] by {
        let at = (i / 3) * 4 + i % 3;
        assert(at % 4 == i % 3);
        assert(0 <= at < 4 * count);
        assert(a.pixels@[at] == b.pixels@[at]);
    }
    assert(ca =~= cb);
}

}
