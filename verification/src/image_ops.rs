//! What is done to a picture before it is shown or exported: decoding it the right
//! way up, turning it, cropping it for a poster, framing it, and laying text or a
//! watermark over it.

use crate::paths;
use crate::paths::FilePath;
use crate::raster;
use crate::raster::{Raster, Turn};
use crate::score::Score;
use crate::text;
use image::{ColorType, GenericImageView};
use vstd::prelude::*;

verus! {

/// A turn, clockwise.
#[derive(Clone, Copy, Debug, PartialEq, Eq, Structural)]
pub enum Rotation {
    NoTurn,
    Cw90,
    Cw180,
    Cw270,
}

impl Rotation {
    /// The turn as one of a picture.
    pub open spec fn turn(self) -> Turn {
        match self {
            Rotation::NoTurn => Turn::Keep,
            Rotation::Cw90 => Turn::Cw90,
            Rotation::Cw180 => Turn::Cw180,
            Rotation::Cw270 => Turn::Cw270,
        }
    }

    /// The number of quarter turns.
    pub open spec fn quarters(self) -> u8 {
        match self {
            Rotation::NoTurn => 0,
            Rotation::Cw90 => 1,
            Rotation::Cw180 => 2,
            Rotation::Cw270 => 3,
        }
    }

    /// The number of quarter turns.
    pub fn quarter_turns(self) -> (n: u8)
        ensures
            n == self.quarters(),
    {
        match self {
            Rotation::NoTurn => 0,
            Rotation::Cw90 => 1,
            Rotation::Cw180 => 2,
            Rotation::Cw270 => 3,
        }
    }
}

/// Where text or a watermark is laid over a picture.
#[derive(Clone, Copy, Debug, PartialEq, Eq, Hash, Structural)]
pub enum TextPosition {
    TopLeft,
    TopRight,
    BottomLeft,
    BottomRight,
    Center,
}

/// A color with an opacity.
#[derive(Clone, Copy, Debug, PartialEq, Eq, Structural)]
pub struct TextColor {
    pub r: u8,
    pub g: u8,
    pub b: u8,
    pub a: u8,
}

impl Default for TextColor {
    /// Opaque white.
    fn default() -> (color: Self)
        ensures
            color == (TextColor { r: 255, g: 255, b: 255, a: 255 }),
    {
        TextColor { r: 255, g: 255, b: 255, a: 255 }
    }
}

/// Text that is laid over a picture. In its template `{filename}` stands for the
/// name of the file.
#[derive(Debug)]
pub struct TextOverlayConfig {
    pub text_template: String,
    pub position: TextPosition,
    pub font_size: Score,
    pub color: TextColor,
    pub margin: u32,
}

impl Default for TextOverlayConfig {
    /// The file name in white, 24 pixels high, ten pixels from the lower right corner.
    fn default() -> (config: Self)
        ensures
            config.text_template@ == "{filename}"@,
            config.position == TextPosition::BottomRight,
            config.font_size.bits == 0x41c0_0000,
            config.color == (TextColor { r: 255, g: 255, b: 255, a: 255 }),
            config.margin == 10,
    {
        TextOverlayConfig {
            text_template: text::owned("{filename}"),
            position: TextPosition::BottomRight,
            font_size: Score { bits: 0x41c0_0000 },
            color: TextColor::default(),
            margin: 10,
        }
    }
}

impl Clone for TextOverlayConfig {
    fn clone(&self) -> (copy: Self)
        ensures
            copy == *self,
    {
        TextOverlayConfig {
            text_template: self.text_template.clone(),
            position: self.position,
            font_size: self.font_size,
            color: self.color,
            margin: self.margin,
        }
    }
}

impl TextOverlayConfig {
    /// Whether the text is another one for each file.
    pub open spec fn names_file(&self) -> bool {
        text::occurs_in(self.text_template@, "{filename}"@)
    }

    /// The text for a file.
    pub open spec fn text_for(&self, filename: Seq<char>) -> Seq<char> {
        text::replaced(self.text_template@, "{filename}"@, filename)
    }

    /// Whether the text is another one for each file.
    pub fn depends_on_file(&self) -> (depends: bool)
        ensures
            depends == self.names_file(),
    {
        text::contains(self.text_template.as_str(), "{filename}")
    }

    /// The text for a file.
    pub fn stamp_text(&self, filename: &str) -> (out: String)
        ensures
            out@ == self.text_for(filename@),
    {
        proof {
            reveal_strlit("{filename}");
        }
        text::replace(self.text_template.as_str(), "{filename}", filename)
    }
}

/// Where the template does not name the file, all files get the same text, so one
/// stamp serves them all.
pub proof fn one_stamp_serves_all(config: TextOverlayConfig, a: Seq<char>, b: Seq<char>)
    requires
        !config.names_file(),
    ensures
        config.text_for(a) == config.text_for(b),
        config.text_for(a) == config.text_template@,
{
    reveal_strlit("{filename}");
    text::nothing_to_replace(config.text_template@, "{filename}"@, a);
    text::nothing_to_replace(config.text_template@, "{filename}"@, b);
}

/// How opaque the shadow of text is.
pub fn shadow_alpha(alpha: u8) -> (shadow: u8)
    ensures
        shadow == alpha as int * 180 / 255,
{
    let scaled: u16 = alpha as u16 * 180 / 255;
    scaled as u8
}

/// Whether bytes start as a JPEG file does.
pub fn is_jpeg(raw: &[u8]) -> (is: bool)
    ensures
        is == (raw@.len() >= 3 && raw@[0] == 0xff && raw@[1] == 0xd8 && raw@[2] == 0xff),
{
    raw.len() >= 3 && raw[0] == 0xff && raw[1] == 0xd8 && raw[2] == 0xff
}

/// A factor that a JPEG file can be scaled by while it is decoded.
#[derive(Clone, Copy, Debug, PartialEq, Eq, Structural)]
pub struct ScalingFactor {
    pub num: usize,
    pub denom: usize,
}

impl ScalingFactor {
    /// A side, scaled and rounded up.
    pub open spec fn scaled(self, side: usize) -> int {
        (side * self.num + self.denom - 1) / (self.denom as int)
    }
}

/// The longer side after scaling.
pub open spec fn scaled_side(factor: ScalingFactor, width: usize, height: usize) -> int {
    if factor.scaled(width) >= factor.scaled(height) {
        factor.scaled(width)
    } else {
        factor.scaled(height)
    }
}

/// A factor that is better than another for pictures that should be `max_side`
/// long: one that keeps the picture large enough is better than one that does not;
/// of two that do, the smaller one; of two that do not, the larger one.
pub open spec fn scales_better(
    a: ScalingFactor,
    b: ScalingFactor,
    width: usize,
    height: usize,
    max_side: u32,
) -> bool {
    let sa = scaled_side(a, width, height);
    let sb = scaled_side(b, width, height);
    if sa >= max_side && sb >= max_side {
        sa < sb
    } else if sa >= max_side || sb >= max_side {
        sa >= max_side
    } else {
        sa > sb
    }
}

/// The best of some factors, the first of equally good ones.
pub open spec fn best_factor(
    factors: Seq<ScalingFactor>,
    width: usize,
    height: usize,
    max_side: u32,
) -> Option<ScalingFactor>
    decreases factors.len(),
{
    if factors.len() == 0 {
        None
    } else {
        match best_factor(factors.drop_last(), width, height, max_side) {
            None => Some(factors.last()),
            Some(best) => if scales_better(factors.last(), best, width, height, max_side) {
                Some(factors.last())
            } else {
                Some(best)
            },
        }
    }
}

fn scale_side(factor: ScalingFactor, side: usize) -> (scaled: usize)
    requires
        factor.denom > 0,
        side * factor.num + factor.denom <= usize::MAX,
    ensures
        scaled == factor.scaled(side),
{
    let product: usize = side * factor.num;
    (product + factor.denom - 1) / factor.denom
}

/// Chooses the factor to decode a JPEG file with, so that its longer side comes
/// near `max_side` but, where possible, not below. What is small enough is not
/// scaled.
pub fn select_scaling_factor(
    width: usize,
    height: usize,
    max_side: u32,
    factors: &Vec<ScalingFactor>,
) -> (chosen: ScalingFactor)
    requires
        forall|i: int|
            0 <= i < factors@.len() ==> (#[trigger] factors@[i]).denom > 0 && width
                * factors@[i].num + factors@[i].denom <= usize::MAX && height * factors@[i].num
                + factors@[i].denom <= usize::MAX,
    ensures
        chosen == (if width <= max_side && height <= max_side {
            ScalingFactor { num: 1, denom: 1 }
        } else {
            match best_factor(factors@, width, height, max_side) {
                Some(factor) => factor,
                None => ScalingFactor { num: 1, denom: 1 },
            }
        }),
{
    let limit: usize = max_side as usize;
    if width <= limit && height <= limit {
        return ScalingFactor { num: 1, denom: 1 };
    }
    let mut best: Option<(ScalingFactor, usize)> = None;
    let mut i: usize = 0;
    assert(factors@.take(0) =~= Seq::<ScalingFactor>::empty());
    while i < factors.len()
        invariant
            i <= factors@.len(),
            limit == max_side,
            forall|j: int|
                0 <= j < factors@.len() ==> (#[trigger] factors@[j]).denom > 0 && width
                    * factors@[j].num + factors@[j].denom <= usize::MAX && height * factors@[j].num
                    + factors@[j].denom <= usize::MAX,
            match best {
                None => best_factor(factors@.take(i as int), width, height, max_side) is None,
                Some((factor, side)) => best_factor(
                    factors@.take(i as int),
                    width,
                    height,
                    max_side,
                ) == Some(factor) && side == scaled_side(factor, width, height),
            },
        decreases factors@.len() - i,
    {
        proof {
            assert(factors@.take(i + 1).drop_last() =~= factors@.take(i as int));
            assert(factors@.take(i + 1).last() == factors@[i as int]);
        }
        let factor = factors[i];
        let w: usize = scale_side(factor, width);
        let h: usize = scale_side(factor, height);
        let side: usize = if w >= h {
            w
        } else {
            h
        };
        let replace = match best {
            None => true,
            Some((_, current)) => if side >= limit && current >= limit {
                side < current
            } else if side >= limit || current >= limit {
                side >= limit
            } else {
                side > current
            },
        };
        if replace {
            best = Some((factor, side));
        }
        i += 1;
    }
    assert(factors@.take(i as int) =~= factors@);
    match best {
        Some((factor, _)) => factor,
        None => ScalingFactor { num: 1, denom: 1 },
    }
}

/// The turn that an orientation code of a file asks for.
pub open spec fn orientation_turn(code: u8) -> Turn {
    if code == 2 {
        Turn::FlipHorizontal
    } else if code == 3 {
        Turn::Cw180
    } else if code == 4 {
        Turn::FlipVertical
    } else if code == 5 {
        Turn::Cw90FlipHorizontal
    } else if code == 6 {
        Turn::Cw90
    } else if code == 7 {
        Turn::Cw270FlipHorizontal
    } else if code == 8 {
        Turn::Cw270
    } else {
        Turn::Keep
    }
}

fn turn_for(code: u8) -> (turn: Turn)
    ensures
        turn == orientation_turn(code),
{
    match code {
        2 => Turn::FlipHorizontal,
        3 => Turn::Cw180,
        4 => Turn::FlipVertical,
        5 => Turn::Cw90FlipHorizontal,
        6 => Turn::Cw90,
        7 => Turn::Cw270FlipHorizontal,
        8 => Turn::Cw270,
        _ => Turn::Keep,
    }
}

/// The orientation code that the `image` crate reads from the bytes of a file.
pub uninterp spec fn orientation_code(raw: Seq<u8>) -> u8;

/// `image::ImageDecoder::orientation`, as its Exif code: the code that the file
/// gives, and 1, for a file that is the right way up, where none can be read.
#[verifier::external_body]
fn read_image_orientation_from_bytes(raw: &[u8]) -> (code: u8)
    ensures
        code == orientation_code(raw@),
        1 <= code <= 8,
{
    image::ImageReader::new(std::io::Cursor::new(raw))
        .with_guessed_format()
        .ok()
        .and_then(|reader| reader.into_decoder().ok())
        .and_then(|mut decoder| image::ImageDecoder::orientation(&mut decoder).ok())
        .unwrap_or(image::metadata::Orientation::NoTransforms)
        .to_exif()
}

/// The picture that the `image` crate decodes the bytes of a file to: its size, how many
/// bytes a pixel takes, and the bytes; or the step that failed, with the error's text.
pub uninterp spec fn decoded_picture(raw: Seq<u8>) -> Result<
    (u32, u32, u8, Seq<u8>),
    (u8, Seq<char>),
>;

/// `image::DynamicImage::from_decoder`, on the decoder for the format that
/// `image::ImageReader` guesses: the named picture, with four values for each pixel. They
/// have 16 bits, and two bytes each with the high one first, in a picture that was stored
/// so, and 8 bits in any other. Where the format cannot be guessed, a decoder cannot be
/// made or the file cannot be decoded, the step (0, 1 or 2) and the text of the error.
#[verifier::external_body]
fn decode_values(raw: &[u8]) -> (decoded: Result<(u32, u32, u8, Vec<u8>), (u8, String)>)
    ensures
        match decoded {
            Ok((w, h, size, bytes)) => decoded_picture(raw@) == Ok::<
                (u32, u32, u8, Seq<u8>),
                (u8, Seq<char>),
            >((w, h, size, bytes@)) && (size == 4 || size == 8) && bytes@.len() == w * h * size,
            Err((step, why)) => decoded_picture(raw@) == Err::<
                (u32, u32, u8, Seq<u8>),
                (u8, Seq<char>),
            >((step, why@)),
        },
{
    let reader = image::ImageReader::new(std::io::Cursor::new(raw));
    let reader = reader.with_guessed_format().map_err(|e| (0, e.to_string()))?;
    let decoder = reader.into_decoder().map_err(|e| (1, e.to_string()))?;
    let picture = image::DynamicImage::from_decoder(decoder).map_err(|e| (2, e.to_string()))?;
    let (w, h) = picture.dimensions();
    Ok(match picture.color() {
        ColorType::L16 | ColorType::La16 | ColorType::Rgb16 | ColorType::Rgba16 => {
            (w, h, 8, picture.into_rgba16().iter().flat_map(|v| v.to_be_bytes()).collect())
        },
        _ => (w, h, 4, picture.into_rgba8().into_raw()),
    })
}

/// What is said of a file that cannot be decoded.
pub open spec fn decode_message(path: Seq<u8>, step: u8, why: Seq<char>) -> Seq<char> {
    let what = if step == 0 {
        "Failed to guess format for "@
    } else if step == 1 {
        "Failed to create decoder "@
    } else {
        "Failed to decode "@
    };
    what + paths::shown(path) + ": "@ + why
}

/// Decodes the bytes of a file to a picture that is the right way up. A picture
/// that a faster decoder already made of a JPEG file is used as it is.
pub fn decode_image_from_bytes(path: &FilePath, raw: &[u8], fast: Option<Raster>) -> (decoded:
    Result<Raster, String>)
    requires
        fast matches Some(picture) ==> picture.wf(),
    ensures
        decoded matches Ok(picture) ==> picture.wf(),
        match fast {
            Some(early) => decoded matches Ok(picture) && raster::is_turned(
                early,
                picture,
                orientation_turn(orientation_code(raw@)),
            ),
            None => match decoded_picture(raw@) {
                Ok((w, h, size, bytes)) => decoded matches Ok(picture) && raster::shows(
                    picture,
                    w,
                    h,
                    size,
                    bytes,
                    orientation_turn(orientation_code(raw@)),
                ),
                Err((step, why)) => decoded matches Err(message) && message@ == decode_message(
                    path@,
                    step,
                    why,
                ),
            },
        },
{
    let turn = turn_for(read_image_orientation_from_bytes(raw));
    match fast {
        Some(picture) => Ok(raster::turn_raster(&picture, turn)),
        None => match decode_values(raw) {
            Ok((width, height, size, pixels)) => {
                let picture = Raster { width, height, pixel_bytes: size, pixels };
                Ok(raster::turn_raster(&picture, turn))
            },
            Err((step, why)) => {
                let mut message = if step == 0 {
                    text::owned("Failed to guess format for ")
                } else if step == 1 {
                    text::owned("Failed to create decoder ")
                } else {
                    text::owned("Failed to decode ")
                };
                let shown = path.display_text();
                text::push_text(&mut message, shown.as_str());
                text::push_text(&mut message, ": ");
                text::push_text(&mut message, why.as_str());
                Err(message)
            },
        },
    }
}

/// Turns a picture clockwise.
pub fn rotate_image(img: &Raster, rotation: Rotation) -> (turned: Raster)
    requires
        img.wf(),
    ensures
        turned.wf(),
        raster::is_turned(*img, turned, rotation.turn()),
{
    match rotation {
        Rotation::NoTurn => raster::turn_raster(img, Turn::Keep),
        Rotation::Cw90 => raster::turn_raster(img, Turn::Cw90),
        Rotation::Cw180 => raster::turn_raster(img, Turn::Cw180),
        Rotation::Cw270 => raster::turn_raster(img, Turn::Cw270),
    }
}

/// The size of a picture that a sticker's template is read from, as it is recorded.
pub fn template_dimensions(img: &Raster) -> (size: (i32, i32))
    ensures
        size.0 == img.width as i32,
        size.1 == img.height as i32,
{
    (img.width as i32, img.height as i32)
}

/// The four values of a pixel.
pub open spec fn pixel(values: Seq<u8>, width: int, x: int, y: int) -> Seq<u8> {
    let at = raster::offset(width, 4, x, y, 0);
    seq![values[at], values[at + 1], values[at + 2], values[at + 3]]
}

/// What the `image` crate makes of a pixel with one over it that lets it shine
/// through.
pub uninterp spec fn blended(bottom: Seq<u8>, top: Seq<u8>) -> Seq<u8>;

/// A pixel with another one over it: the lower one where the upper one is
/// transparent, the upper one where it is opaque, and otherwise something between.
pub open spec fn laid_over(bottom: Seq<u8>, top: Seq<u8>) -> Seq<u8> {
    if top[3] == 0 {
        bottom
    } else if top[3] == 255 {
        top
    } else {
        blended(bottom, top)
    }
}

/// A picture with another one laid over it at a place: each of its pixels that the
/// other covers with that pixel over it, and the rest as it was.
pub open spec fn is_overlaid(
    values: Seq<u8>,
    bottom_width: u32,
    bottom_height: u32,
    bottom: Seq<u8>,
    top_width: u32,
    top_height: u32,
    top: Seq<u8>,
    left: i64,
    upper: i64,
) -> bool {
    &&& values.len() == bottom.len()
    &&& forall|x: int, y: int|
        #![trigger pixel(values, bottom_width as int, x, y)]
        0 <= x < bottom_width && 0 <= y < bottom_height ==> pixel(values, bottom_width as int, x, y)
            == (if 0 <= x - left < top_width && 0 <= y - upper < top_height {
            laid_over(
                pixel(bottom, bottom_width as int, x, y),
                pixel(top, top_width as int, x - left, y - upper),
            )
        } else {
            pixel(bottom, bottom_width as int, x, y)
        })
}

/// `image::imageops::overlay` on two pictures with four values for each pixel: lays
/// the second over the first, with its upper left corner at the place. Of a pixel
/// that is neither transparent nor opaque only the name of the result is given.
#[verifier::external_body]
fn overlay_values(
    bottom_width: u32,
    bottom_height: u32,
    bottom: Vec<u8>,
    top_width: u32,
    top_height: u32,
    top: &Vec<u8>,
    left: i64,
    upper: i64,
) -> (values: Vec<u8>)
    requires
        bottom@.len() == bottom_width * bottom_height * 4,
        top@.len() == top_width * top_height * 4,
    ensures
        values@.len() == bottom@.len(),
        forall|x: int, y: int|
            #![trigger pixel(values@, bottom_width as int, x, y)]
            0 <= x < bottom_width && 0 <= y < bottom_height ==> pixel(
                values@,
                bottom_width as int,
                x,
                y,
            ) == (if !(0 <= x - left < top_width && 0 <= y - upper < top_height) || pixel(
                top@,
                top_width as int,
                x - left,
                y - upper,
            )[3] == 0 {
                pixel(bottom@, bottom_width as int, x, y)
            } else if pixel(top@, top_width as int, x - left, y - upper)[3] == 255 {
                pixel(top@, top_width as int, x - left, y - upper)
            } else {
                blended(
                    pixel(bottom@, bottom_width as int, x, y),
                    pixel(top@, top_width as int, x - left, y - upper),
                )
            }),
{
    let mut base = image::RgbaImage::from_raw(bottom_width, bottom_height, bottom).unwrap();
    let over = image::RgbaImage::from_raw(top_width, top_height, top.clone()).unwrap();
    image::imageops::overlay(&mut base, &over, left, upper);
    base.into_raw()
}

/// A picture with another one laid over it.
pub open spec fn is_stamped(before: Raster, after: Raster, stamp: Raster, left: i64, upper: i64) -> bool {
    &&& after.width == before.width
    &&& after.height == before.height
    &&& after.pixel_bytes == 4
    &&& is_overlaid(
        after.pixels@,
        before.width,
        before.height,
        raster::opaque_values(
            before.pixels@,
            before.pixel_bytes as int,
            before.width * before.height,
        ),
        stamp.width,
        stamp.height,
        stamp.pixels@,
        left,
        upper,
    )
}

/// Lays a picture over another one.
pub fn overlay(img: Raster, stamp: &Raster, left: i64, upper: i64) -> (stamped: Raster)
    requires
        img.wf(),
        stamp.wf(),
        stamp.pixel_bytes == 4,
    ensures
        stamped.wf(),
        is_stamped(img, stamped, *stamp, left, upper),
{
    let base = img.into_rgba();
    let width: u32 = base.width;
    let height: u32 = base.height;
    let pixels = overlay_values(
        width,
        height,
        base.pixels,
        stamp.width,
        stamp.height,
        &stamp.pixels,
        left,
        upper,
    );
    Raster { width, height, pixel_bytes: 4, pixels }
}

/// How far something starts from the edge when it ends `margin` before the other
/// edge; at the edge where there is no room.
pub open spec fn from_far_edge(side: u32, stamp: u32, margin: u32) -> i64 {
    if side >= stamp + margin {
        (side - (stamp + margin)) as i64
    } else {
        0
    }
}

/// How far something starts from the edge when it stands in the middle; at the
/// edge where there is no room.
pub open spec fn from_middle(side: u32, stamp: u32) -> i64 {
    if side >= stamp {
        ((side - stamp) / 2) as i64
    } else {
        0
    }
}

/// Where the upper left corner of a stamp goes.
pub open spec fn stamp_place(
    position: TextPosition,
    margin: u32,
    width: u32,
    height: u32,
    stamp_width: u32,
    stamp_height: u32,
) -> (i64, i64) {
    match position {
        TextPosition::TopLeft => (margin as i64, margin as i64),
        TextPosition::TopRight => (from_far_edge(width, stamp_width, margin), margin as i64),
        TextPosition::BottomLeft => (margin as i64, from_far_edge(height, stamp_height, margin)),
        TextPosition::BottomRight => (
            from_far_edge(width, stamp_width, margin),
            from_far_edge(height, stamp_height, margin),
        ),
        TextPosition::Center => (
            from_middle(width, stamp_width),
            from_middle(height, stamp_height),
        ),
    }
}

/// Lays a stamp over a picture, at a corner or in the middle.
pub fn overlay_stamp_with_position(
    img: Raster,
    position: TextPosition,
    margin: u32,
    stamp: &Raster,
) -> (stamped: Raster)
    requires
        img.wf(),
        stamp.wf(),
        stamp.pixel_bytes == 4,
        stamp.width + margin <= u32::MAX,
        stamp.height + margin <= u32::MAX,
    ensures
        stamped.wf(),
        ({
            let place = stamp_place(
                position,
                margin,
                img.width,
                img.height,
                stamp.width,
                stamp.height,
            );
            is_stamped(img, stamped, *stamp, place.0, place.1)
        }),
{
    let (w, h) = (img.width, img.height);
    let (sw, sh) = (stamp.width, stamp.height);
    let (left, upper): (i64, i64) = match position {
        TextPosition::TopLeft => (margin as i64, margin as i64),
        TextPosition::TopRight => (w.saturating_sub(sw + margin) as i64, margin as i64),
        TextPosition::BottomLeft => (margin as i64, h.saturating_sub(sh + margin) as i64),
        TextPosition::BottomRight => (
            w.saturating_sub(sw + margin) as i64,
            h.saturating_sub(sh + margin) as i64,
        ),
        TextPosition::Center => (
            (w.saturating_sub(sw) / 2) as i64,
            (h.saturating_sub(sh) / 2) as i64,
        ),
    };
    overlay(img, stamp, left, upper)
}

/// Lays a stamp of text over a picture.
pub fn overlay_text_with_stamp(img: Raster, config: &TextOverlayConfig, stamp: &Raster) -> (stamped:
    Raster)
    requires
        img.wf(),
        stamp.wf(),
        stamp.pixel_bytes == 4,
        stamp.width + config.margin <= u32::MAX,
        stamp.height + config.margin <= u32::MAX,
    ensures
        stamped.wf(),
        ({
            let place = stamp_place(
                config.position,
                config.margin,
                img.width,
                img.height,
                stamp.width,
                stamp.height,
            );
            is_stamped(img, stamped, *stamp, place.0, place.1)
        }),
{
    overlay_stamp_with_position(img, config.position, config.margin, stamp)
}

/// A stamp that fits with its margins lies inside the picture, wherever it goes.
pub proof fn stamps_that_fit_lie_inside(
    position: TextPosition,
    margin: u32,
    width: u32,
    height: u32,
    stamp_width: u32,
    stamp_height: u32,
)
    requires
        stamp_width + 2 * margin <= width,
        stamp_height + 2 * margin <= height,
    ensures
        ({
            let place = stamp_place(position, margin, width, height, stamp_width, stamp_height);
            &&& margin <= place.0
            &&& margin <= place.1
            &&& place.0 + stamp_width + margin <= width
            &&& place.1 + stamp_height + margin <= height
        }),
{
}

/// What the `image` crate makes of a picture, with four values for each pixel, that
/// it resizes with its triangle filter.
pub uninterp spec fn resampled(
    width: u32,
    height: u32,
    values: Seq<u8>,
    new_width: u32,
    new_height: u32,
) -> Seq<u8>;

/// The longest side that a picture can have before or after it is resized. Places on
/// longer sides cannot be told apart in single precision.
pub const LONGEST_SIDE: u32 = 1048576;

/// `image::imageops::resize` with the triangle filter, on a picture with four values
/// for each pixel: the named values for the new size, and a copy where that is the
/// old size. Sizes for which the picture, or what is computed on the way, could not be
/// held in memory are left out, and sides on which the filter could find no pixel.
#[verifier::external_body]
fn resize_values(width: u32, height: u32, values: Vec<u8>, new_width: u32, new_height: u32) -> (
    resized: Vec<u8>)
    requires
        values@.len() == width * height * 4,
        0 < new_width <= LONGEST_SIDE,
        0 < new_height <= LONGEST_SIDE,
        width <= LONGEST_SIDE,
        height <= LONGEST_SIDE,
        width * new_height * 16 <= isize::MAX,
        new_width * new_height * 4 <= isize::MAX,
    ensures
        resized@ == resampled(width, height, values@, new_width, new_height),
        resized@.len() == new_width * new_height * 4,
        new_width == width && new_height == height ==> resized@ == values@,
{
    let picture = image::RgbaImage::from_raw(width, height, values).unwrap();
    image::imageops::resize(
        &picture,
        new_width,
        new_height,
        image::imageops::FilterType::Triangle,
    ).into_raw()
}

/// What the `image` crate makes of a picture, with four values of 16 bits for each pixel,
/// that it resizes with its triangle filter. Every value has its high byte first.
pub uninterp spec fn resampled_deep(
    width: u32,
    height: u32,
    bytes: Seq<u8>,
    new_width: u32,
    new_height: u32,
) -> Seq<u8>;

/// `image::imageops::resize` with the triangle filter, on a picture with four values of 16
/// bits for each pixel: the named bytes for the new size, and a copy where that is the
/// old size. The same sizes are left out as for values of 8 bits.
#[verifier::external_body]
fn resize_deep_values(
    width: u32,
    height: u32,
    bytes: Vec<u8>,
    new_width: u32,
    new_height: u32,
) -> (resized: Vec<u8>)
    requires
        bytes@.len() == width * height * 8,
        0 < new_width <= LONGEST_SIDE,
        0 < new_height <= LONGEST_SIDE,
        width <= LONGEST_SIDE,
        height <= LONGEST_SIDE,
        width * new_height * 16 <= isize::MAX,
        new_width * new_height * 8 <= isize::MAX,
    ensures
        resized@ == resampled_deep(width, height, bytes@, new_width, new_height),
        resized@.len() == new_width * new_height * 8,
        new_width == width && new_height == height ==> resized@ == bytes@,
{
    let values = bytes.chunks_exact(2).map(|b| u16::from_be_bytes([b[0], b[1]])).collect();
    let picture = image::ImageBuffer::<image::Rgba<u16>, Vec<u16>>::from_raw(width, height, values);
    let filter = image::imageops::FilterType::Triangle;
    let resized = image::imageops::resize(&picture.unwrap(), new_width, new_height, filter);
    resized.into_raw().into_iter().flat_map(u16::to_be_bytes).collect()
}

/// A picture that was resized. One with values of 16 bits keeps them.
pub open spec fn is_resized(before: Raster, after: Raster, width: u32, height: u32) -> bool {
    &&& after.width == width
    &&& after.height == height
    &&& if before.pixel_bytes == 8 {
        &&& after.pixel_bytes == 8
        &&& after.pixels@ == resampled_deep(
            before.width,
            before.height,
            before.pixels@,
            width,
            height,
        )
    } else {
        &&& after.pixel_bytes == 4
        &&& after.pixels@ == resampled(
            before.width,
            before.height,
            raster::opaque_values(
                before.pixels@,
                before.pixel_bytes as int,
                before.width * before.height,
            ),
            width,
            height,
        )
    }
}

/// A picture of a size can be resized to another size.
pub open spec fn can_resize(width: u32, height: u32, new_width: u32, new_height: u32) -> bool {
    &&& 0 < new_width <= LONGEST_SIDE
    &&& 0 < new_height <= LONGEST_SIDE
    &&& width <= LONGEST_SIDE
    &&& height <= LONGEST_SIDE
    &&& width * new_height * 16 <= isize::MAX
    &&& new_width * new_height * 8 <= isize::MAX
}

/// Whether a picture of a size can be resized to another size.
pub fn resize_is_possible(width: u32, height: u32, new_width: u32, new_height: u32) -> (possible:
    bool)
    ensures
        possible == can_resize(width, height, new_width, new_height),
{
    if new_width == 0 || new_width > LONGEST_SIDE || new_height == 0 || new_height > LONGEST_SIDE
        || width > LONGEST_SIDE || height > LONGEST_SIDE {
        return false;
    }
    assert(0 <= width * new_height <= 0x100_0000_0000) by (nonlinear_arith)
        requires
            0 <= width <= 0x10_0000,
            0 <= new_height <= 0x10_0000,
    ;
    assert(0 <= new_width * new_height <= 0x100_0000_0000) by (nonlinear_arith)
        requires
            0 <= new_width <= 0x10_0000,
            0 <= new_height <= 0x10_0000,
    ;
    let between: u64 = width as u64 * new_height as u64 * 16;
    let after: u64 = new_width as u64 * new_height as u64 * 8;
    between <= isize::MAX as u64 && after <= isize::MAX as u64
}

/// Resizes a picture to a size.
pub fn resize_exact(img: Raster, width: u32, height: u32) -> (resized: Raster)
    requires
        img.wf(),
        can_resize(img.width, img.height, width, height),
    ensures
        resized.wf(),
        is_resized(img, resized, width, height),
{
    if img.pixel_bytes == 8 {
        let pixels = resize_deep_values(img.width, img.height, img.pixels, width, height);
        return Raster { width, height, pixel_bytes: 8, pixels };
    }
    let rgba = img.into_rgba();
    let pixels = resize_values(rgba.width, rgba.height, rgba.pixels, width, height);
    Raster { width, height, pixel_bytes: 4, pixels }
}

/// The sides of a poster of 33 by 66 centimeters at 300 dots per inch.
pub const POSTER_SHORT_SIDE: u32 = 3898;

/// The long side of such a poster.
pub const POSTER_LONG_SIDE: u32 = 7795;

/// The size of the poster for a picture, which is as wide or as high as the picture.
pub open spec fn poster_size(width: u32, height: u32) -> (u32, u32) {
    if width >= height {
        (POSTER_LONG_SIDE, POSTER_SHORT_SIDE)
    } else {
        (POSTER_SHORT_SIDE, POSTER_LONG_SIDE)
    }
}

/// The size of the poster for a picture.
pub fn poster_dimensions(width: u32, height: u32) -> (size: (u32, u32))
    ensures
        size == poster_size(width, height),
{
    if width >= height {
        (POSTER_LONG_SIDE, POSTER_SHORT_SIDE)
    } else {
        (POSTER_SHORT_SIDE, POSTER_LONG_SIDE)
    }
}

/// How a picture is cropped to get another shape: not at all, to a smaller width, or
/// to a smaller height.
#[derive(Clone, Copy, Debug, PartialEq, Eq, Structural)]
pub enum AspectCrop {
    Keep,
    ToWidth(u32),
    ToHeight(u32),
}

impl AspectCrop {
    /// The crop leaves something of a picture of this size, and no more than it is.
    pub open spec fn fits(self, width: u32, height: u32) -> bool {
        match self {
            AspectCrop::Keep => true,
            AspectCrop::ToWidth(w) => 1 <= w <= width,
            AspectCrop::ToHeight(h) => 1 <= h <= height,
        }
    }

    /// Whether the crop leaves something of a picture of this size, and no more than it
    /// is.
    pub fn is_possible(self, width: u32, height: u32) -> (possible: bool)
        ensures
            possible == self.fits(width, height),
    {
        match self {
            AspectCrop::Keep => true,
            AspectCrop::ToWidth(w) => 1 <= w && w <= width,
            AspectCrop::ToHeight(h) => 1 <= h && h <= height,
        }
    }

    /// The size that is left.
    pub open spec fn size(self, width: u32, height: u32) -> (u32, u32) {
        match self {
            AspectCrop::Keep => (width, height),
            AspectCrop::ToWidth(w) => (w, height),
            AspectCrop::ToHeight(h) => (width, h),
        }
    }
}

/// A picture of which the same was cut off on both sides, or at the top and at the
/// bottom; an odd row or column more at the end.
pub open spec fn is_cropped(before: Raster, after: Raster, crop: AspectCrop) -> bool {
    match crop {
        AspectCrop::Keep => after.looks_like(&before),
        AspectCrop::ToWidth(w) => raster::is_cut(
            before,
            after,
            ((before.width - w) / 2) as u32,
            0,
            w,
            before.height,
        ),
        AspectCrop::ToHeight(h) => raster::is_cut(
            before,
            after,
            0,
            ((before.height - h) / 2) as u32,
            before.width,
            h,
        ),
    }
}

/// Crops a picture around its middle.
pub fn crop_to_aspect_centered(img: Raster, crop: AspectCrop) -> (cropped: Raster)
    requires
        img.wf(),
        crop.fits(img.width, img.height),
    ensures
        cropped.wf(),
        is_cropped(img, cropped, crop),
{
    match crop {
        AspectCrop::Keep => img,
        AspectCrop::ToWidth(w) => raster::cut_raster(
            &img,
            (img.width - w) / 2,
            0,
            w,
            img.height,
        ),
        AspectCrop::ToHeight(h) => raster::cut_raster(
            &img,
            0,
            (img.height - h) / 2,
            img.width,
            h,
        ),
    }
}

/// A picture that was cropped and resized to a poster; an empty one as it was.
pub open spec fn is_poster(before: Raster, after: Raster, crop: AspectCrop) -> bool {
    if before.width == 0 || before.height == 0 {
        after.looks_like(&before)
    } else {
        let size = poster_size(before.width, before.height);
        exists|cropped: Raster| #[trigger]
            is_cropped(before, cropped, crop) && cropped.wf() && is_resized(
                cropped,
                after,
                size.0,
                size.1,
            )
    }
}

/// A picture of a size can be made a poster.
pub open spec fn can_make_poster(width: u32, height: u32) -> bool {
    &&& width <= LONGEST_SIDE
    &&& height <= LONGEST_SIDE
    &&& width * POSTER_LONG_SIDE * 16 <= isize::MAX
    &&& POSTER_SHORT_SIDE * POSTER_LONG_SIDE * 8 <= isize::MAX
}

/// Whether a picture of a size can be made a poster.
pub fn poster_is_possible(width: u32, height: u32) -> (possible: bool)
    ensures
        possible == can_make_poster(width, height),
{
    if width > LONGEST_SIDE || height > LONGEST_SIDE {
        return false;
    }
    assert(0 <= width * POSTER_LONG_SIDE <= 0x10_0000 * 7795) by (nonlinear_arith)
        requires
            0 <= width <= 0x10_0000,
            POSTER_LONG_SIDE == 7795,
    ;
    let between: u64 = width as u64 * POSTER_LONG_SIDE as u64 * 16;
    let after: u64 = POSTER_SHORT_SIDE as u64 * POSTER_LONG_SIDE as u64 * 8;
    between <= isize::MAX as u64 && after <= isize::MAX as u64
}

/// Makes a poster of a picture: crops it to the poster's shape and resizes it.
pub fn resize_to_33x66cm_poster(img: Raster, crop: AspectCrop) -> (poster: Raster)
    requires
        img.wf(),
        img.width > 0 && img.height > 0 ==> crop.fits(img.width, img.height),
        img.width > 0 && img.height > 0 ==> can_make_poster(img.width, img.height),
    ensures
        poster.wf(),
        is_poster(img, poster, crop),
{
    if img.width == 0 || img.height == 0 {
        return img;
    }
    let (width, height) = poster_dimensions(img.width, img.height);
    let ghost before = img;
    let cropped = crop_to_aspect_centered(img, crop);
    proof {
        assert(cropped.width <= before.width);
        assert(cropped.width * height * 16 <= before.width * POSTER_LONG_SIDE * 16)
            by (nonlinear_arith)
            requires
                cropped.width <= before.width,
                height <= POSTER_LONG_SIDE,
        ;
        assert(is_cropped(before, cropped, crop));
    }
    resize_exact(cropped, width, height)
}

/// A picture that was cropped to a poster's shape; an empty one as it was.
pub open spec fn is_shaped(before: Raster, after: Raster, crop: AspectCrop) -> bool {
    if before.width == 0 || before.height == 0 {
        after.looks_like(&before)
    } else {
        is_cropped(before, after, crop)
    }
}

/// Crops a picture to a poster's shape; an empty one stays as it is.
pub fn crop_to_33x66cm_poster_aspect(img: Raster, crop: AspectCrop) -> (cropped: Raster)
    requires
        img.wf(),
        img.width > 0 && img.height > 0 ==> crop.fits(img.width, img.height),
    ensures
        cropped.wf(),
        is_shaped(img, cropped, crop),
{
    if img.width == 0 || img.height == 0 {
        return img;
    }
    crop_to_aspect_centered(img, crop)
}

/// A side with a border on both ends, no longer than can be written.
pub open spec fn bordered_side(side: u32, border: u32) -> u32 {
    let both = if 2 * border > u32::MAX {
        u32::MAX as int
    } else {
        2 * border
    };
    if side + both > u32::MAX {
        u32::MAX
    } else {
        (side + both) as u32
    }
}

/// A picture on a larger white one.
pub open spec fn is_bordered(before: Raster, after: Raster, border: u32) -> bool {
    if border == 0 || before.width == 0 || before.height == 0 {
        after.looks_like(&before)
    } else {
        let width = bordered_side(before.width, border);
        let height = bordered_side(before.height, border);
        &&& after.width == width
        &&& after.height == height
        &&& after.pixel_bytes == 4
        &&& is_overlaid(
            after.pixels@,
            width,
            height,
            Seq::new((width * height * 4) as nat, |i: int| 255u8),
            before.width,
            before.height,
            raster::opaque_values(
                before.pixels@,
                before.pixel_bytes as int,
                before.width * before.height,
            ),
            border as i64,
            border as i64,
        )
    }
}

/// A picture of a size with a border around it can be held in memory.
pub open spec fn can_border(width: u32, height: u32, border: u32) -> bool {
    border > 0 && width > 0 && height > 0 ==> bordered_side(width, border) * bordered_side(
        height,
        border,
    ) * 4 <= usize::MAX
}

/// Whether a picture of a size with a border around it can be held in memory.
pub fn border_is_possible(width: u32, height: u32, border_px: u32) -> (possible: bool)
    ensures
        possible == can_border(width, height, border_px),
{
    if border_px == 0 || width == 0 || height == 0 {
        return true;
    }
    let both: u32 = border_px.saturating_add(border_px);
    let w: u32 = width.saturating_add(both);
    let h: u32 = height.saturating_add(both);
    assert(w == bordered_side(width, border_px));
    assert(h == bordered_side(height, border_px));
    assert(0 <= w * h <= 0xffff_ffff * 0xffff_ffff) by (nonlinear_arith)
        requires
            0 <= w <= 0xffff_ffff,
            0 <= h <= 0xffff_ffff,
    ;
    (w as u128 * h as u128) * 4 <= usize::MAX as u128
}

/// Puts a white border around a picture.
pub fn add_white_border(img: Raster, border_px: u32) -> (bordered: Raster)
    requires
        img.wf(),
        can_border(img.width, img.height, border_px),
    ensures
        bordered.wf(),
        is_bordered(img, bordered, border_px),
{
    if border_px == 0 {
        return img;
    }
    if img.width == 0 || img.height == 0 {
        return img;
    }
    let both: u32 = border_px.saturating_add(border_px);
    let width: u32 = img.width.saturating_add(both);
    let height: u32 = img.height.saturating_add(both);
    assert(width == bordered_side(img.width, border_px));
    assert(height == bordered_side(img.height, border_px));
    let canvas = raster::white_canvas(width, height);
    let ghost white = canvas.pixels@;
    let source = img.into_rgba();
    let pixels = overlay_values(
        width,
        height,
        canvas.pixels,
        source.width,
        source.height,
        &source.pixels,
        border_px as i64,
        border_px as i64,
    );
    assert(white =~= Seq::new((width * height * 4) as nat, |i: int| 255u8));
    Raster { width, height, pixel_bytes: 4, pixels }
}

/// What the `image` crate makes of a picture, with four values for each pixel, that
/// it resizes with its triangle filter to fit into a rectangle and keep its shape: the
/// new size and the values.
pub uninterp spec fn fitted(
    width: u32,
    height: u32,
    values: Seq<u8>,
    bound_width: u32,
    bound_height: u32,
) -> (u32, u32, Seq<u8>);

/// `image::DynamicImage::resize` with the triangle filter, on a picture with four
/// values for each pixel: the named picture, which fits into the rectangle and reaches
/// across it one way. Empty pictures and rectangles are left out, and those that are
/// too large.
#[verifier::external_body]
fn fit_values(width: u32, height: u32, values: Vec<u8>, bound_width: u32, bound_height: u32) -> (
    resized: (u32, u32, Vec<u8>))
    requires
        values@.len() == width * height * 4,
        0 < width <= LONGEST_SIDE,
        0 < height <= LONGEST_SIDE,
        0 < bound_width <= LONGEST_SIDE,
        0 < bound_height <= LONGEST_SIDE,
        width * bound_height * 16 <= isize::MAX,
        bound_width * bound_height * 4 <= isize::MAX,
    ensures
        (resized.0, resized.1, resized.2@) == fitted(
            width,
            height,
            values@,
            bound_width,
            bound_height,
        ),
        resized.2@.len() == resized.0 * resized.1 * 4,
        1 <= resized.0 <= bound_width,
        1 <= resized.1 <= bound_height,
        resized.0 == bound_width || resized.1 == bound_height,
{
    let picture = image::RgbaImage::from_raw(width, height, values).unwrap();
    let picture = image::DynamicImage::ImageRgba8(picture);
    let filter = image::imageops::FilterType::Triangle;
    let fitted = picture.resize(bound_width, bound_height, filter).into_rgba8();
    (fitted.width(), fitted.height(), fitted.into_raw())
}

/// What the `image` crate makes of a picture, with four values of 16 bits for each pixel,
/// that it resizes with its triangle filter to fit into a rectangle and keep its shape:
/// the new size and the bytes, of each value the high one first.
pub uninterp spec fn fitted_deep(
    width: u32,
    height: u32,
    bytes: Seq<u8>,
    bound_width: u32,
    bound_height: u32,
) -> (u32, u32, Seq<u8>);

/// `image::DynamicImage::resize` with the triangle filter, on a picture with four values
/// of 16 bits for each pixel: the named picture, which fits into the rectangle and
/// reaches across it one way. The same sizes are left out as for values of 8 bits.
#[verifier::external_body]
fn fit_deep_values(width: u32, height: u32, bytes: Vec<u8>, bound_width: u32, bound_height: u32) -> (
    resized: (u32, u32, Vec<u8>))
    requires
        bytes@.len() == width * height * 8,
        0 < width <= LONGEST_SIDE,
        0 < height <= LONGEST_SIDE,
        0 < bound_width <= LONGEST_SIDE,
        0 < bound_height <= LONGEST_SIDE,
        width * bound_height * 16 <= isize::MAX,
        bound_width * bound_height * 8 <= isize::MAX,
    ensures
        (resized.0, resized.1, resized.2@) == fitted_deep(
            width,
            height,
            bytes@,
            bound_width,
            bound_height,
        ),
        resized.2@.len() == resized.0 * resized.1 * 8,
        1 <= resized.0 <= bound_width,
        1 <= resized.1 <= bound_height,
        resized.0 == bound_width || resized.1 == bound_height,
{
    let values = bytes.chunks_exact(2).map(|b| u16::from_be_bytes([b[0], b[1]])).collect();
    let picture = image::ImageBuffer::from_raw(width, height, values).unwrap();
    let picture = image::DynamicImage::ImageRgba16(picture);
    let filter = image::imageops::FilterType::Triangle;
    let fitted = picture.resize(bound_width, bound_height, filter).into_rgba16();
    let (width, height) = (fitted.width(), fitted.height());
    (width, height, fitted.into_raw().into_iter().flat_map(u16::to_be_bytes).collect())
}

/// A picture that was made to fit into a rectangle. One with values of 16 bits keeps them.
pub open spec fn is_fitted(
    before: Raster,
    after: Raster,
    bound_width: u32,
    bound_height: u32,
) -> bool {
    if before.pixel_bytes == 8 {
        &&& after.pixel_bytes == 8
        &&& (after.width, after.height, after.pixels@) == fitted_deep(
            before.width,
            before.height,
            before.pixels@,
            bound_width,
            bound_height,
        )
    } else {
        &&& after.pixel_bytes == 4
        &&& (after.width, after.height, after.pixels@) == fitted(
            before.width,
            before.height,
            raster::opaque_values(
                before.pixels@,
                before.pixel_bytes as int,
                before.width * before.height,
            ),
            bound_width,
            bound_height,
        )
    }
}

/// A picture of a size can be made to fit into a rectangle.
pub open spec fn can_fit(width: u32, height: u32, bound_width: u32, bound_height: u32) -> bool {
    &&& 0 < width
    &&& 0 < height
    &&& can_resize(width, height, bound_width, bound_height)
}

/// Whether a picture of a size can be made to fit into a rectangle.
pub fn fit_is_possible(width: u32, height: u32, bound_width: u32, bound_height: u32) -> (possible:
    bool)
    ensures
        possible == can_fit(width, height, bound_width, bound_height),
{
    width > 0 && height > 0 && resize_is_possible(width, height, bound_width, bound_height)
}

/// Makes a picture fit into a rectangle.
pub fn resize_to_fit(img: Raster, bound_width: u32, bound_height: u32) -> (resized: Raster)
    requires
        img.wf(),
        can_fit(img.width, img.height, bound_width, bound_height),
    ensures
        resized.wf(),
        is_fitted(img, resized, bound_width, bound_height),
        1 <= resized.width <= bound_width,
        1 <= resized.height <= bound_height,
        resized.width == bound_width || resized.height == bound_height,
{
    if img.pixel_bytes == 8 {
        let (width, height, pixels) = fit_deep_values(
            img.width,
            img.height,
            img.pixels,
            bound_width,
            bound_height,
        );
        return Raster { width, height, pixel_bytes: 8, pixels };
    }
    let rgba = img.into_rgba();
    let (width, height, pixels) = fit_values(
        rgba.width,
        rgba.height,
        rgba.pixels,
        bound_width,
        bound_height,
    );
    Raster { width, height, pixel_bytes: 4, pixels }
}

/// A picture that was made to fit into a square, and then brought to values of 8 bits
/// with an opacity.
pub open spec fn is_thumbnail(before: Raster, after: Raster, side: u32) -> bool {
    exists|sized: Raster| #[trigger]
        is_fitted(before, sized, side, side) && sized.wf() && raster::is_opaque_version(
            sized,
            after,
        )
}

/// Makes a picture fit into a square.
pub fn generate_thumbnail(img: Raster, max_size: u32) -> (thumbnail: Raster)
    requires
        img.wf(),
        can_fit(img.width, img.height, max_size, max_size),
    ensures
        thumbnail.wf(),
        is_thumbnail(img, thumbnail, max_size),
        1 <= thumbnail.width <= max_size,
        1 <= thumbnail.height <= max_size,
        thumbnail.width == max_size || thumbnail.height == max_size,
{
    let ghost before = img;
    let sized = resize_to_fit(img, max_size, max_size);
    assert(is_fitted(before, sized, max_size, max_size));
    sized.into_rgba()
}

/// Whether a picture is too large for a square.
pub fn exceeds(width: u32, height: u32, side: u32) -> (is: bool)
    ensures
        is == (width > side || height > side),
{
    width > side || height > side
}

/// The numbers of the objects of a page in a PDF file.
#[derive(Clone, Copy, Debug, PartialEq, Eq, Structural)]
pub struct PageObjects {
    pub page: i32,
    pub content: i32,
    pub image: i32,
}

/// The numbers of the objects of the pages of a PDF file, whose catalog is object 1
/// and whose page tree is object 2.
pub fn page_objects(pages: usize) -> (objects: Vec<PageObjects>)
    requires
        2 + 3 * pages <= i32::MAX,
    ensures
        objects@.len() == pages,
        forall|i: int|
            0 <= i < pages ==> #[trigger] objects@[i] == (PageObjects {
                page: (3 + 3 * i) as i32,
                content: (4 + 3 * i) as i32,
                image: (5 + 3 * i) as i32,
            }),
{
    let mut objects: Vec<PageObjects> = Vec::new();
    let mut i: usize = 0;
    while i < pages
        invariant
            i <= pages,
            2 + 3 * pages <= i32::MAX,
            objects@.len() == i,
            forall|j: int|
                0 <= j < i ==> #[trigger] objects@[j] == (PageObjects {
                    page: (3 + 3 * j) as i32,
                    content: (4 + 3 * j) as i32,
                    image: (5 + 3 * j) as i32,
                }),
        decreases pages - i,
    {
        let page: i32 = 3 + 3 * (i as i32);
        objects.push(PageObjects { page, content: page + 1, image: page + 2 });
        i += 1;
    }
    objects
}

/// The name of the picture of a page in a PDF file.
pub fn page_image_name(index: usize) -> (name: String)
    ensures
        name@ == "Im"@ + text::decimal(index as nat),
{
    let mut name = text::owned("Im");
    text::push_decimal(&mut name, index as u64);
    name
}

/// Values of which each pixel is as opaque as a table says for how opaque it was.
pub open spec fn faded_values(values: Seq<u8>, alpha: Seq<u8>) -> Seq<u8> {
    Seq::new(
        values.len(),
        |i: int|
            if i % 4 == 3 {
                alpha[values[i] as int]
            } else {
                values[i]
            },
    )
}

fn fade(values: &Vec<u8>, alpha: &Vec<u8>) -> (faded: Vec<u8>)
    requires
        alpha@.len() == 256,
    ensures
        faded@ == faded_values(values@, alpha@),
{
    let mut faded: Vec<u8> = Vec::new();
    let mut i: usize = 0;
    while i < values.len()
        invariant
            i <= values@.len(),
            alpha@.len() == 256,
            faded@.len() == i,
            forall|j: int| 0 <= j < i ==> #[trigger] faded@[j] == faded_values(values@, alpha@)[j],
        decreases values@.len() - i,
    {
        if i % 4 == 3 {
            faded.push(alpha[values[i] as usize]);
        } else {
            faded.push(values[i]);
        }
        i += 1;
    }
    assert(faded@ =~= faded_values(values@, alpha@));
    faded
}

/// What is done to a picture before it is laid over others as a watermark: how opaque
/// each pixel becomes, by how opaque it was, and the size it gets, where these change.
#[derive(Debug)]
pub struct WatermarkShape {
    pub alpha: Option<Vec<u8>>,
    pub size: Option<(u32, u32)>,
}

impl WatermarkShape {
    /// The shape can be given to a picture of this size.
    pub open spec fn fits(&self, width: u32, height: u32) -> bool {
        &&& self.alpha matches Some(alpha) ==> alpha@.len() == 256
        &&& self.size matches Some(size) ==> can_resize(width, height, size.0, size.1)
    }

    /// The values of the picture before it is turned.
    pub open spec fn values(&self, width: u32, height: u32, values: Seq<u8>) -> Seq<u8> {
        let faded = match self.alpha {
            Some(alpha) => faded_values(values, alpha@),
            None => values,
        };
        match self.size {
            Some(size) => resampled(width, height, faded, size.0, size.1),
            None => faded,
        }
    }

    /// The size of the picture before it is turned.
    pub open spec fn size_of(&self, width: u32, height: u32) -> (u32, u32) {
        match self.size {
            Some(size) => size,
            None => (width, height),
        }
    }
}

/// A picture is a watermark that was made of another one.
pub open spec fn is_watermark(
    img: Raster,
    stamp: Raster,
    shape: WatermarkShape,
    rotation: Rotation,
) -> bool {
    raster::shows(
        stamp,
        shape.size_of(img.width, img.height).0,
        shape.size_of(img.width, img.height).1,
        4,
        shape.values(
            img.width,
            img.height,
            raster::opaque_values(img.pixels@, img.pixel_bytes as int, img.width * img.height),
        ),
        rotation.turn(),
    )
}

/// Makes a watermark of a picture that was loaded: fades it, resizes it, and turns it.
pub fn load_watermark_stamp(
    loaded: Result<Raster, String>,
    shape: &WatermarkShape,
    rotation: Rotation,
) -> (stamp: Result<Raster, String>)
    requires
        loaded matches Ok(img) ==> img.wf() && shape.fits(img.width, img.height),
    ensures
        stamp matches Ok(s) ==> s.wf() && s.pixel_bytes == 4,
        match loaded {
            Ok(img) => stamp matches Ok(s) && is_watermark(img, s, *shape, rotation),
            Err(why) => stamp matches Err(message) && message@ == why@,
        },
{
    let img = match loaded {
        Ok(img) => img,
        Err(why) => {
            return Err(why);
        },
    };
    let mut rgba = img.into_rgba();
    if let Some(alpha) = &shape.alpha {
        let pixels = fade(&rgba.pixels, alpha);
        rgba = Raster { width: rgba.width, height: rgba.height, pixel_bytes: 4, pixels };
    }
    if let Some(size) = shape.size {
        let pixels = resize_values(rgba.width, rgba.height, rgba.pixels, size.0, size.1);
        rgba = Raster { width: size.0, height: size.1, pixel_bytes: 4, pixels };
    }
    Ok(rotate_image(&rgba, rotation))
}

/// A file's orientation code says where the first row and the first column of what is
/// stored belong in the picture: the first row at the top (1, 2), at the bottom (3, 4), on
/// the left (5, 8) or on the right (6, 7), and the first column on the left (1, 4), on the
/// right (2, 3), at the top (5, 6) or at the bottom (7, 8). There every stored pixel goes.
/// Any other code leaves the picture as it is stored.
pub proof fn stored_pixels_go_where_the_code_says(
    code: u8,
    stored: Raster,
    picture: Raster,
    x: int,
    y: int,
    c: int,
)
    requires
        raster::is_turned(stored, picture, orientation_turn(code)),
        0 <= x < stored.width,
        0 <= y < stored.height,
        0 <= c < stored.pixel_bytes,
    ensures
        ({
            let right = stored.width - 1 - x;
            let below = stored.height - 1 - y;
            &&& code == 2 ==> picture.sample(right, y, c) == stored.sample(x, y, c)
            &&& code == 3 ==> picture.sample(right, below, c) == stored.sample(x, y, c)
            &&& code == 4 ==> picture.sample(x, below, c) == stored.sample(x, y, c)
            &&& code == 5 ==> picture.sample(y, x, c) == stored.sample(x, y, c)
            &&& code == 6 ==> picture.sample(below, x, c) == stored.sample(x, y, c)
            &&& code == 7 ==> picture.sample(below, right, c) == stored.sample(x, y, c)
            &&& code == 8 ==> picture.sample(y, right, c) == stored.sample(x, y, c)
            &&& code < 2 || code > 8 ==> picture.sample(x, y, c) == stored.sample(x, y, c)
        }),
        5 <= code <= 8 ==> picture.width == stored.height && picture.height == stored.width,
        code < 5 || code > 8 ==> picture.width == stored.width && picture.height == stored.height,
        picture.pixel_bytes == stored.pixel_bytes,
{
    let right = stored.width - 1 - x;
    let below = stored.height - 1 - y;
    let place: (int, int) = if code == 2 {
        (right, y)
    } else if code == 3 {
        (right, below)
    } else if code == 4 {
        (x, below)
    } else if code == 5 {
        (y, x)
    } else if code == 6 {
        (below, x)
    } else if code == 7 {
        (below, right)
    } else if code == 8 {
        (y, right)
    } else {
        (x, y)
    };
    let s = orientation_turn(code).source(
        stored.width as int,
        stored.height as int,
        place.0,
        place.1,
    );
    assert(picture.sample(place.0, place.1, c) == stored.sample(s.0, s.1, c));
    assert(s == (x, y));
}

/// The turns for the codes 6 and 8 take each other back, and the one for every other code
/// itself: what was turned for one of them is restored by the turn for the other.
pub proof fn orientations_can_be_taken_back(
    code: u8,
    other: u8,
    stored: Raster,
    turned: Raster,
    restored: Raster,
)
    requires
        (code == 6 && other == 8) || (code == 8 && other == 6) || (code == other && code != 6
            && code != 8),
        stored.wf(),
        turned.wf(),
        restored.wf(),
        raster::is_turned(stored, turned, orientation_turn(code)),
        raster::is_turned(turned, restored, orientation_turn(other)),
    ensures
        restored.looks_like(&stored),
{
    raster::turns_can_be_taken_back(stored, turned, restored, orientation_turn(code));
}

/// A rotation turns clockwise: by a quarter, the upper left corner comes to the upper
/// right, by half a turn to the lower right, and by three quarters to the lower left. Every
/// other pixel turns with it.
pub proof fn rotations_go_clockwise(
    rotation: Rotation,
    before: Raster,
    after: Raster,
    x: int,
    y: int,
    c: int,
)
    requires
        raster::is_turned(before, after, rotation.turn()),
        0 <= x < before.width,
        0 <= y < before.height,
        0 <= c < before.pixel_bytes,
    ensures
        ({
            let right = before.width - 1 - x;
            let below = before.height - 1 - y;
            match rotation {
                Rotation::NoTurn => after.sample(x, y, c) == before.sample(x, y, c),
                Rotation::Cw90 => after.sample(below, x, c) == before.sample(x, y, c),
                Rotation::Cw180 => after.sample(right, below, c) == before.sample(x, y, c),
                Rotation::Cw270 => after.sample(y, right, c) == before.sample(x, y, c),
            }
        }),
        rotation == Rotation::Cw90 || rotation == Rotation::Cw270 ==> after.width == before.height
            && after.height == before.width,
        rotation == Rotation::NoTurn || rotation == Rotation::Cw180 ==> after.width == before.width
            && after.height == before.height,
        rotation.quarters() % 2 == 0 <==> rotation == Rotation::NoTurn || rotation
            == Rotation::Cw180,
{
    let right = before.width - 1 - x;
    let below = before.height - 1 - y;
    let place: (int, int) = match rotation {
        Rotation::NoTurn => (x, y),
        Rotation::Cw90 => (below, x),
        Rotation::Cw180 => (right, below),
        Rotation::Cw270 => (y, right),
    };
    let s = rotation.turn().source(before.width as int, before.height as int, place.0, place.1);
    assert(after.sample(place.0, place.1, c) == before.sample(s.0, s.1, c));
    assert(s == (x, y));
}

/// Different rotations are told apart by their number of quarter turns, which is below four.
pub proof fn rotations_are_told_apart(a: Rotation, b: Rotation)
    ensures
        a.quarters() < 4,
        a != b ==> a.quarters() != b.quarters(),
{
}

/// A stamp stands as far from the edges as its margin says: at a corner from the two that
/// meet there. In the middle it has as much room on one side as on the other, or a pixel
/// more at the end. Where there is no room, it starts at the edge.
pub proof fn stamps_keep_their_distance(
    position: TextPosition,
    margin: u32,
    width: u32,
    height: u32,
    stamp_width: u32,
    stamp_height: u32,
)
    ensures
        ({
            let place = stamp_place(position, margin, width, height, stamp_width, stamp_height);
            let at_left = position == TextPosition::TopLeft || position == TextPosition::BottomLeft;
            let at_right = position == TextPosition::TopRight || position
                == TextPosition::BottomRight;
            let at_top = position == TextPosition::TopLeft || position == TextPosition::TopRight;
            let at_bottom = position == TextPosition::BottomLeft || position
                == TextPosition::BottomRight;
            let right = width - place.0 - stamp_width;
            let below = height - place.1 - stamp_height;
            &&& at_left ==> place.0 == margin
            &&& at_top ==> place.1 == margin
            &&& at_right && stamp_width + margin <= width ==> right == margin
            &&& at_bottom && stamp_height + margin <= height ==> below == margin
            &&& at_right && stamp_width + margin > width ==> place.0 == 0
            &&& at_bottom && stamp_height + margin > height ==> place.1 == 0
            &&& !at_left && !at_right && stamp_width <= width ==> 0 <= right - place.0 <= 1
            &&& !at_top && !at_bottom && stamp_height <= height ==> 0 <= below - place.1 <= 1
            &&& !at_left && !at_right && stamp_width > width ==> place.0 == 0
            &&& !at_top && !at_bottom && stamp_height > height ==> place.1 == 0
        }),
{
}

/// A stamp changes only what it covers: beside it the picture stays as it was, and so it
/// does under what is transparent. What is opaque hides the picture.
pub proof fn stamps_cover_only_their_place(
    before: Raster,
    after: Raster,
    stamp: Raster,
    left: i64,
    upper: i64,
    x: int,
    y: int,
)
    requires
        is_stamped(before, after, stamp, left, upper),
        before.pixel_bytes == 4,
        before.wf(),
        0 <= x < before.width,
        0 <= y < before.height,
    ensures
        after.width == before.width,
        after.height == before.height,
        after.pixel_bytes == 4,
        ({
            let covered = left <= x < left + stamp.width && upper <= y < upper + stamp.height;
            let old_pixel = pixel(before.pixels@, before.width as int, x, y);
            let new_pixel = pixel(after.pixels@, after.width as int, x, y);
            let over = pixel(stamp.pixels@, stamp.width as int, x - left, y - upper);
            &&& !covered ==> new_pixel == old_pixel
            &&& covered && over[3] == 0 ==> new_pixel == old_pixel
            &&& covered && over[3] == 255 ==> new_pixel == over
        }),
{
    let count = before.width * before.height;
    assert(raster::opaque_values(before.pixels@, 4, count) =~= before.pixels@);
}

/// A poster is 7795 pixels long and 3898 wide, and lies or stands as the picture does.
pub proof fn posters_lie_or_stand_as_the_picture(width: u32, height: u32)
    ensures
        width >= height ==> poster_size(width, height).0 == 7795 && poster_size(width, height).1
            == 3898,
        width < height ==> poster_size(width, height).0 == 3898 && poster_size(width, height).1
            == 7795,
        width != height ==> poster_size(height, width) == (
            poster_size(width, height).1,
            poster_size(width, height).0,
        ),
{
}

/// A crop keeps the middle: as much is cut off at the start as at the end, or a row or a
/// column less, and nothing the other way. What is left is not changed.
pub proof fn crops_keep_the_middle(before: Raster, after: Raster, crop: AspectCrop) -> (start: (
    int,
    int,
))
    requires
        crop.fits(before.width, before.height),
        is_cropped(before, after, crop),
    ensures
        ({
            let right = before.width - after.width - start.0;
            let below = before.height - after.height - start.1;
            &&& 0 <= right - start.0 <= 1
            &&& 0 <= below - start.1 <= 1
        }),
        match crop {
            AspectCrop::Keep => after.width == before.width && after.height == before.height,
            AspectCrop::ToWidth(w) => after.width == w && after.height == before.height,
            AspectCrop::ToHeight(h) => after.width == before.width && after.height == h,
        },
        after.pixel_bytes == before.pixel_bytes,
        forall|x: int, y: int, c: int|
            #![trigger after.sample(x, y, c)]
            0 <= x < after.width && 0 <= y < after.height && 0 <= c < after.pixel_bytes
                ==> after.sample(x, y, c) == before.sample(start.0 + x, start.1 + y, c),
{
    match crop {
        AspectCrop::Keep => (0, 0),
        AspectCrop::ToWidth(w) => ((before.width - w) / 2, 0),
        AspectCrop::ToHeight(h) => (0, (before.height - h) / 2),
    }
}

/// A border is white and as wide as was asked for on all four sides, and the picture stands
/// unchanged inside of it, over white where it is transparent.
pub proof fn borders_are_white_on_all_sides(
    before: Raster,
    after: Raster,
    border: u32,
    x: int,
    y: int,
)
    requires
        before.wf(),
        before.pixel_bytes == 4,
        is_bordered(before, after, border),
        border > 0,
        before.width > 0,
        before.height > 0,
        before.width + 2 * border <= u32::MAX,
        before.height + 2 * border <= u32::MAX,
        0 <= x < after.width,
        0 <= y < after.height,
    ensures
        after.width == before.width + 2 * border,
        after.height == before.height + 2 * border,
        ({
            let shown = pixel(after.pixels@, after.width as int, x, y);
            let inside = border <= x < border + before.width && border <= y < border
                + before.height;
            let own = pixel(before.pixels@, before.width as int, x - border, y - border);
            &&& !inside || own[3] == 0 ==> shown == seq![255u8, 255u8, 255u8, 255u8]
            &&& inside && own[3] == 255 ==> shown == own
        }),
{
    let count = before.width * before.height;
    assert(raster::opaque_values(before.pixels@, 4, count) =~= before.pixels@);
    let white = Seq::new((after.width * after.height * 4) as nat, |i: int| 255u8);
    let w = after.width as int;
    let h = after.height as int;
    assert(0 <= raster::offset(w, 4, x, y, 0) && raster::offset(w, 4, x, y, 0) + 3 < w * h * 4)
        by (nonlinear_arith)
        requires
            0 <= x < w,
            0 <= y < h,
            raster::offset(w, 4, x, y, 0) == (y * w + x) * 4 + 0,
    ;
    assert(pixel(white, w, x, y) =~= seq![255u8, 255u8, 255u8, 255u8]);
    assert(pixel(after.pixels@, w, x, y).len() == 4);
}

/// A picture without a border asked for stays as it is, and so does an empty one.
pub proof fn nothing_is_framed_by_nothing(before: Raster, after: Raster, border: u32)
    requires
        is_bordered(before, after, border),
        border == 0 || before.width == 0 || before.height == 0,
    ensures
        after.looks_like(&before),
{
}

/// A scaled side is the least number of pixels that is no less than its exact share.
pub proof fn scaled_sides_are_rounded_up(factor: ScalingFactor, side: usize)
    requires
        factor.denom > 0,
    ensures
        factor.scaled(side) * factor.denom >= side * factor.num,
        (factor.scaled(side) - 1) * factor.denom < side * factor.num,
{
    let d = factor.denom as int;
    let n = side * factor.num;
    let q = (n + d - 1) / d;
    vstd::arithmetic::div_mod::lemma_fundamental_div_mod(n + d - 1, d);
    let r = (n + d - 1) % d;
    assert(q * d == d * q) by (nonlinear_arith);
    assert((q - 1) * d == d * q - d) by (nonlinear_arith);
}

/// The factor that is chosen is one of those there are. If with any of them a side stays as
/// long as is wanted, it does with the chosen one, and none that keeps it so gives a smaller
/// picture. If with none, then none gives a larger picture.
pub proof fn chosen_factors_come_nearest(
    factors: Seq<ScalingFactor>,
    width: usize,
    height: usize,
    max_side: u32,
    other: int,
)
    requires
        0 <= other < factors.len(),
    ensures
        best_factor(factors, width, height, max_side) matches Some(chosen) && factors.contains(
            chosen,
        ) && ({
            let long = chosen.scaled(width) >= max_side || chosen.scaled(height) >= max_side;
            let w = factors[other].scaled(width);
            let h = factors[other].scaled(height);
            &&& w >= max_side || h >= max_side ==> long && (chosen.scaled(width) <= w
                || chosen.scaled(width) <= h) && (chosen.scaled(height) <= w || chosen.scaled(
                height,
            ) <= h)
            &&& !long ==> (w <= chosen.scaled(width) || w <= chosen.scaled(height)) && (h
                <= chosen.scaled(width) || h <= chosen.scaled(height))
        }),
    decreases factors.len(),
{
    let shorter = factors.drop_last();
    if shorter.len() > 0 {
        let seen = if other < shorter.len() {
            other
        } else {
            0
        };
        chosen_factors_come_nearest(shorter, width, height, max_side, seen);
        let best = best_factor(shorter, width, height, max_side)->Some_0;
        let i = choose|i: int| 0 <= i < shorter.len() && shorter[i] == best;
        assert(factors[i] == best);
        assert(shorter[seen] == factors[seen]);
    }
    assert(factors[factors.len() - 1] == factors.last());
}

/// Fading changes how opaque a pixel is, as the table says, and never its colors.
pub proof fn fading_keeps_the_colors(values: Seq<u8>, alpha: Seq<u8>, p: int)
    requires
        0 <= p,
        4 * p + 4 <= values.len(),
    ensures
        faded_values(values, alpha).len() == values.len(),
        faded_values(values, alpha)[4 * p] == values[4 * p],
        faded_values(values, alpha)[4 * p + 1] == values[4 * p + 1],
        faded_values(values, alpha)[4 * p + 2] == values[4 * p + 2],
        faded_values(values, alpha)[4 * p + 3] == alpha[values[4 * p + 3] as int],
{
}

/// A watermark that is faded and resized is what comes of resizing what was faded. One with
/// neither keeps its values and its size.
pub proof fn watermarks_are_faded_first(
    faded: WatermarkShape,
    sized: WatermarkShape,
    both: WatermarkShape,
    width: u32,
    height: u32,
    values: Seq<u8>,
)
    requires
        faded.size is None,
        sized.alpha is None,
        both.alpha == faded.alpha,
        both.size == sized.size,
    ensures
        both.values(width, height, values) == sized.values(
            width,
            height,
            faded.values(width, height, values),
        ),
        both.size_of(width, height) == sized.size_of(width, height),
        faded.size_of(width, height) == (width, height),
        faded.alpha is None ==> faded.values(width, height, values) == values,
        faded.alpha matches Some(alpha) ==> faded.values(width, height, values) == faded_values(
            values,
            alpha@,
        ),
        sized.size matches Some(size) ==> sized.size_of(width, height) == size && sized.values(
            width,
            height,
            values,
        ) == resampled(width, height, values, size.0, size.1),
{
}

/// A file that cannot be decoded is named, with what could not be done and why.
pub proof fn decode_failures_name_the_file(path: Seq<u8>, step: u8, why: Seq<char>)
    ensures
        step == 0 ==> decode_message(path, step, why) == "Failed to guess format for "@
            + paths::shown(path) + ": "@ + why,
        step == 1 ==> decode_message(path, step, why) == "Failed to create decoder "@
            + paths::shown(path) + ": "@ + why,
        step > 1 ==> decode_message(path, step, why) == "Failed to decode "@ + paths::shown(path)
            + ": "@ + why,
{
}

/// A picture that is resized has the size that was asked for, and keeps values of 16 bits
/// where it has them.
pub proof fn resizing_keeps_the_depth(before: Raster, after: Raster, width: u32, height: u32)
    requires
        is_resized(before, after, width, height),
    ensures
        after.width == width,
        after.height == height,
        before.pixel_bytes == 8 ==> after.pixel_bytes == 8,
        before.pixel_bytes == 3 || before.pixel_bytes == 4 ==> after.pixel_bytes == 4,
{
}

/// A poster of a picture that is not empty has a poster's size, whatever was cut off.
pub proof fn posters_have_their_size(before: Raster, after: Raster, crop: AspectCrop)
    requires
        is_poster(before, after, crop),
    ensures
        0 < before.height <= before.width ==> after.width == 7795 && after.height == 3898,
        0 < before.width < before.height ==> after.width == 3898 && after.height == 7795,
        before.width == 0 || before.height == 0 ==> after.looks_like(&before),
{
}

/// A crop is possible where it leaves something and no more than there is; and what it leaves
/// is as wide or as high as it says.
pub proof fn crops_leave_something(crop: AspectCrop, width: u32, height: u32)
    ensures
        crop.fits(width, height) && width > 0 && height > 0 ==> 0 < crop.size(width, height).0
            <= width && 0 < crop.size(width, height).1 <= height,
        AspectCrop::Keep.fits(width, height) && AspectCrop::Keep.size(width, height) == (
            width,
            height,
        ),
        crop matches AspectCrop::ToWidth(w) ==> (crop.fits(width, height) <==> 1 <= w <= width)
            && crop.size(width, height) == (w, height),
        crop matches AspectCrop::ToHeight(h) ==> (crop.fits(width, height) <==> 1 <= h <= height)
            && crop.size(width, height) == (width, h),
{
}

/// A picture can be resized where no side is empty afterwards or above 1048576 before or
/// after, and what is computed on the way has room in memory; and made to fit where it is not
/// empty either.
pub proof fn pictures_are_resized_where_there_is_room(
    width: u32,
    height: u32,
    new_width: u32,
    new_height: u32,
)
    ensures
        can_resize(width, height, new_width, new_height) <==> 0 < new_width <= 1048576 && 0
            < new_height <= 1048576 && width <= 1048576 && height <= 1048576 && width * new_height
            * 16 <= isize::MAX && new_width * new_height * 8 <= isize::MAX,
        can_fit(width, height, new_width, new_height) <==> width > 0 && height > 0 && can_resize(
            width,
            height,
            new_width,
            new_height,
        ),
        can_make_poster(width, height) <==> width <= 1048576 && height <= 1048576 && width * 7795
            * 16 <= isize::MAX && 3898 * 7795 * 8 <= isize::MAX,
{
}

/// Of factors that give pictures of the same size the first one is chosen: one more that
/// gives the size of the chosen one changes nothing.
pub proof fn the_first_of_equal_factors_is_chosen(
    factors: Seq<ScalingFactor>,
    more: ScalingFactor,
    width: usize,
    height: usize,
    max_side: u32,
)
    ensures
        best_factor(factors, width, height, max_side) matches Some(chosen) ==> (more.scaled(width)
            == chosen.scaled(width) && more.scaled(height) == chosen.scaled(height) ==> best_factor(
            factors.push(more),
            width,
            height,
            max_side,
        ) == Some(chosen)),
        best_factor(seq![more], width, height, max_side) == Some(more),
        best_factor(Seq::empty(), width, height, max_side) is None,
{
    reveal_with_fuel(best_factor, 2);
    assert(factors.push(more).drop_last() =~= factors);
    assert(seq![more].drop_last() =~= Seq::<ScalingFactor>::empty());
}

/// A picture that is made to fit keeps values of 16 bits where it has them, and a thumbnail
/// has values of 8 bits and an opacity always. It is as large as the picture that it was made
/// of.
pub proof fn thumbnails_have_four_values(before: Raster, after: Raster, side: u32) -> (sized: Raster)
    requires
        is_thumbnail(before, after, side),
    ensures
        is_fitted(before, sized, side, side),
        before.pixel_bytes == 8 ==> sized.pixel_bytes == 8,
        before.pixel_bytes == 3 || before.pixel_bytes == 4 ==> sized.pixel_bytes == 4,
        after.width == sized.width,
        after.height == sized.height,
        after.pixel_bytes == 4,
{
    choose|sized: Raster| #[trigger]
        is_fitted(before, sized, side, side) && sized.wf() && raster::is_opaque_version(
            sized,
            after,
        )
}

/// A picture that is not empty is brought to a poster's shape by its crop; an empty one is
/// left as it is.
pub proof fn pictures_are_shaped_by_their_crop(before: Raster, after: Raster, crop: AspectCrop)
    requires
        is_shaped(before, after, crop),
    ensures
        before.width == 0 || before.height == 0 ==> after.looks_like(&before),
        before.width > 0 && before.height > 0 ==> match crop {
            AspectCrop::Keep => after.width == before.width && after.height == before.height,
            AspectCrop::ToWidth(w) => after.width == w && after.height == before.height,
            AspectCrop::ToHeight(h) => after.width == before.width && after.height == h,
        },
        before.width > 0 && before.height > 0 ==> is_cropped(before, after, crop),
{
}

/// A pixel is the four values that stand together at its place, row by row and in each row
/// from the left.
pub proof fn pixels_are_four_values_in_a_row(values: Seq<u8>, width: int, x: int, y: int, c: int)
    requires
        0 <= c < 4,
    ensures
        pixel(values, width, x, y).len() == 4,
        pixel(values, width, x, y)[c] == values[(y * width + x) * 4 + c],
{
}

/// What is resized, or made to fit, are the values of the picture itself where it has an
/// opacity, and those with full opacity where it has none.
pub proof fn pictures_are_resampled_whole(
    before: Raster,
    after: Raster,
    width: u32,
    height: u32,
    values: Seq<u8>,
)
    requires
        before.pixels@.len() == (before.width * before.height) * before.pixel_bytes,
        before.pixel_bytes == 3 ==> values.len() == 4 * (before.width * before.height)
            && forall|i: int|
            0 <= i < values.len() ==> #[trigger] values[i] == (if i % 4 == 3 {
                255u8
            } else {
                before.pixels@[(i / 4) * 3 + i % 4]
            }),
    ensures
        is_resized(before, after, width, height) ==> {
            &&& before.pixel_bytes == 8 ==> after.pixels@ == resampled_deep(
                before.width,
                before.height,
                before.pixels@,
                width,
                height,
            )
            &&& before.pixel_bytes == 4 ==> after.pixels@ == resampled(
                before.width,
                before.height,
                before.pixels@,
                width,
                height,
            )
            &&& before.pixel_bytes == 3 ==> after.pixels@ == resampled(
                before.width,
                before.height,
                values,
                width,
                height,
            )
        },
        is_fitted(before, after, width, height) ==> {
            &&& before.pixel_bytes == 8 ==> (after.width, after.height, after.pixels@)
                == fitted_deep(before.width, before.height, before.pixels@, width, height)
            &&& before.pixel_bytes == 4 ==> (after.width, after.height, after.pixels@) == fitted(
                before.width,
                before.height,
                before.pixels@,
                width,
                height,
            )
            &&& before.pixel_bytes == 3 ==> (after.width, after.height, after.pixels@) == fitted(
                before.width,
                before.height,
                values,
                width,
                height,
            )
        },
{
    let count = before.width * before.height;
    if before.pixel_bytes == 4 {
        assert(raster::opaque_values(before.pixels@, 4, count) =~= before.pixels@);
    }
    if before.pixel_bytes == 3 {
        assert(count >= 0) by (nonlinear_arith)
            requires
                count == before.width * before.height,
        ;
        assert(raster::opaque_values(before.pixels@, 3, count) =~= values);
    }
}

}
