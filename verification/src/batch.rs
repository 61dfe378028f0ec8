//! Exporting many pictures: what is done to each, where it is written, and what is
//! reported of it.

use crate::image_ops;
use crate::image_ops::{AspectCrop, Rotation, TextOverlayConfig, TextPosition};
use crate::paths;
use crate::paths::FilePath;
use crate::raster;
use crate::raster::Raster;
use crate::score::Score;
use crate::text;
use vstd::prelude::*;

verus! {

/// What a picture is exported as.
#[derive(Clone, Copy, Debug, PartialEq, Eq, Structural)]
pub enum OutputFormat {
    Jpeg,
    Pdf,
}

/// What makes a poster of a picture: a crop and a resize, and a white border.
#[derive(Clone, Copy, Debug, PartialEq, Eq, Structural)]
pub struct PosterOptions {
    pub resize_to_33x66cm: bool,
    pub margin_px: u32,
}

impl Default for PosterOptions {
    /// No poster.
    fn default() -> (options: Self)
        ensures
            options == (PosterOptions { resize_to_33x66cm: false, margin_px: 0 }),
    {
        PosterOptions { resize_to_33x66cm: false, margin_px: 0 }
    }
}

/// How a watermark is turned: as the picture is, or some other way.
#[derive(Clone, Copy, Debug, PartialEq, Eq, Structural)]
pub enum WatermarkRotation {
    MatchImage,
    Fixed(Rotation),
}

impl Default for WatermarkRotation {
    /// As the picture is turned.
    fn default() -> (rotation: Self)
        ensures
            rotation == WatermarkRotation::MatchImage,
    {
        WatermarkRotation::MatchImage
    }
}

impl WatermarkRotation {
    /// The turn of the watermark on a picture that is turned.
    pub open spec fn resolved(self, image_rotation: Rotation) -> Rotation {
        match self {
            WatermarkRotation::MatchImage => image_rotation,
            WatermarkRotation::Fixed(rotation) => rotation,
        }
    }

    /// The turn of the watermark on a picture that is turned.
    pub fn resolve(self, image_rotation: Rotation) -> (rotation: Rotation)
        ensures
            rotation == self.resolved(image_rotation),
    {
        match self {
            WatermarkRotation::MatchImage => image_rotation,
            WatermarkRotation::Fixed(rotation) => rotation,
        }
    }
}

/// A picture that is laid over others.
#[derive(Debug)]
pub struct WatermarkConfig {
    pub image_path: FilePath,
    pub position: TextPosition,
    pub margin: u32,
    pub scale_percent: Score,
    pub opacity: Score,
    pub rotation: WatermarkRotation,
}

/// What is done to every picture of a batch.
#[derive(Debug)]
pub struct BatchConfig {
    pub quality: u8,
    pub rotation: Rotation,
    pub text_overlay: Option<TextOverlayConfig>,
    pub poster: PosterOptions,
    pub watermark: Option<WatermarkConfig>,
    pub output_format: OutputFormat,
    pub output_dir: FilePath,
}

impl Default for BatchConfig {
    /// Nothing but an export to PDF at a quality of 70.
    fn default() -> (config: Self)
        ensures
            config.quality == 70,
            config.rotation == Rotation::NoTurn,
            config.text_overlay is None,
            config.poster == (PosterOptions { resize_to_33x66cm: false, margin_px: 0 }),
            config.watermark is None,
            config.output_format == OutputFormat::Pdf,
            config.output_dir@.len() == 0,
    {
        BatchConfig {
            quality: 70,
            rotation: Rotation::NoTurn,
            text_overlay: None,
            poster: PosterOptions::default(),
            watermark: None,
            output_format: OutputFormat::Pdf,
            output_dir: FilePath { written: Vec::new() },
        }
    }
}

/// What became of a picture.
#[derive(Debug)]
pub struct ProcessResult {
    pub source: FilePath,
    pub success: bool,
    pub error: Option<String>,
}

impl ProcessResult {
    /// The result of a picture that was exported, or not.
    pub open spec fn tells(&self, source: Seq<u8>, outcome: Result<(), Seq<char>>) -> bool {
        &&& self.source@ == source
        &&& self.success == (outcome is Ok)
        &&& text::optional_text(self.error) == (match outcome {
            Ok(_) => None,
            Err(why) => Some(why),
        })
    }
}

/// An outcome with the text of its message.
pub open spec fn outcome_text(outcome: Result<(), String>) -> Result<(), Seq<char>> {
    match outcome {
        Ok(_) => Ok(()),
        Err(why) => Err(why@),
    }
}

/// The results of a batch that could not be started: every picture failed, for the
/// same reason.
pub fn all_failed(paths: &Vec<FilePath>, why: &str) -> (results: Vec<ProcessResult>)
    ensures
        results@.len() == paths@.len(),
        forall|i: int|
            0 <= i < results@.len() ==> #[trigger] results@[i].tells(paths@[i]@, Err(why@)),
{
    let mut results: Vec<ProcessResult> = Vec::new();
    let mut i: usize = 0;
    while i < paths.len()
        invariant
            i <= paths@.len(),
            results@.len() == i,
            forall|j: int|
                0 <= j < i ==> #[trigger] results@[j].tells(paths@[j]@, Err(why@)),
        decreases paths@.len() - i,
    {
        results.push(
            ProcessResult {
                source: paths[i].clone(),
                success: false,
                error: Some(text::owned(why)),
            },
        );
        i += 1;
    }
    results
}

/// The name that a file's exported version is called after.
pub open spec fn export_stem(source: Seq<u8>) -> Seq<char> {
    match paths::file_stem_text(source) {
        Some(stem) => stem,
        None => "image"@,
    }
}

/// The name that a file's exported version is called after.
pub fn stem_for_export(source: &FilePath) -> (stem: String)
    ensures
        stem@ == export_stem(source@),
{
    match source.file_stem_text() {
        Some(stem) => stem,
        None => text::owned("image"),
    }
}

impl BatchConfig {
    /// The text of the one stamp that serves every picture, where there is one.
    pub open spec fn common_text(&self) -> Option<Seq<char>> {
        match self.text_overlay {
            Some(overlay) => if overlay.names_file() {
                None
            } else {
                Some(overlay.text_for(Seq::empty()))
            },
            None => None,
        }
    }

    /// The text of the one stamp that serves every picture, where there is one.
    pub fn shared_stamp_text(&self) -> (shared: Option<String>)
        ensures
            text::optional_text(shared) == self.common_text(),
    {
        match &self.text_overlay {
            Some(overlay) => {
                if overlay.depends_on_file() {
                    None
                } else {
                    proof {
                        reveal_strlit("");
                        assert(""@ =~= Seq::<char>::empty());
                    }
                    Some(overlay.stamp_text(""))
                }
            },
            None => None,
        }
    }

    /// The text of the stamp that is made for one picture, where it needs one of its
    /// own.
    pub open spec fn own_text(&self, filename: Seq<char>, shared: bool) -> Option<Seq<char>> {
        match self.text_overlay {
            Some(overlay) => if shared {
                None
            } else {
                Some(overlay.text_for(filename))
            },
            None => None,
        }
    }

    /// The text of the stamp that is made for one picture, where it needs one of its
    /// own: there is text to be laid over it and no shared stamp.
    pub fn own_stamp_text(&self, filename: &str, shared: bool) -> (own: Option<String>)
        ensures
            text::optional_text(own) == self.own_text(filename@, shared),
    {
        match &self.text_overlay {
            Some(overlay) => {
                if shared {
                    None
                } else {
                    Some(overlay.stamp_text(filename))
                }
            },
            None => None,
        }
    }

    /// The name of a file's exported version.
    pub open spec fn export_name(&self, stem: Seq<char>) -> Seq<char> {
        match self.output_format {
            OutputFormat::Jpeg => stem + ".jpg"@,
            OutputFormat::Pdf => stem + ".pdf"@,
        }
    }

    /// Where a file's exported version is written.
    pub fn output_path(&self, stem: &str) -> (path: FilePath)
        ensures
            path@ == paths::joined(
                self.output_dir@,
                vstd::utf8::encode_utf8(self.export_name(stem@)),
            ),
    {
        let mut name = text::owned(stem);
        match self.output_format {
            OutputFormat::Jpeg => {
                text::push_text(&mut name, ".jpg");
            },
            OutputFormat::Pdf => {
                text::push_text(&mut name, ".pdf");
            },
        }
        self.output_dir.join_text(name.as_str())
    }
}

/// The picture after it was made a poster, or only got a poster's shape for a
/// preview, where that is wanted.
pub open spec fn poster_step(
    before: Raster,
    after: Raster,
    poster: PosterOptions,
    crop: AspectCrop,
    preview: bool,
) -> bool {
    if !poster.resize_to_33x66cm {
        after.looks_like(&before)
    } else if preview {
        image_ops::is_shaped(before, after, crop)
    } else {
        image_ops::is_poster(before, after, crop)
    }
}

/// The picture after it got its border.
pub open spec fn border_step(before: Raster, after: Raster, poster: PosterOptions) -> bool {
    image_ops::is_bordered(before, after, poster.margin_px)
}

/// The picture after a stamp was laid over it, where there is one.
pub open spec fn stamp_step(
    before: Raster,
    after: Raster,
    stamp: Option<(TextPosition, u32, Raster)>,
) -> bool {
    match stamp {
        Some((position, margin, picture)) => {
            let place = image_ops::stamp_place(
                position,
                margin,
                before.width,
                before.height,
                picture.width,
                picture.height,
            );
            image_ops::is_stamped(before, after, picture, place.0, place.1)
        },
        None => after.looks_like(&before),
    }
}

impl BatchConfig {
    /// The text that is laid over a picture.
    pub open spec fn text_layer(&self, stamp: Option<Raster>) -> Option<(
        TextPosition,
        u32,
        Raster,
    )> {
        match (self.text_overlay, stamp) {
            (Some(overlay), Some(picture)) => Some((overlay.position, overlay.margin, picture)),
            _ => None,
        }
    }

    /// The watermark that is laid over a picture.
    pub open spec fn watermark_layer(&self, stamp: Option<Raster>) -> Option<(
        TextPosition,
        u32,
        Raster,
    )> {
        match (self.watermark, stamp) {
            (Some(watermark), Some(picture)) => Some(
                (watermark.position, watermark.margin, picture),
            ),
            _ => None,
        }
    }
}

/// A picture after everything was done to it: made a poster, framed, then text laid
/// over it, then the watermark.
pub open spec fn effects_applied(
    before: Raster,
    after: Raster,
    config: BatchConfig,
    crop: AspectCrop,
    text_stamp: Option<Raster>,
    watermark_stamp: Option<Raster>,
    preview: bool,
) -> bool {
    exists|a: Raster, b: Raster, c: Raster|
        #![trigger poster_step(before, a, config.poster, crop, preview), border_step(a, b, config.poster), stamp_step(b, c, config.text_layer(text_stamp))]
        a.wf() && b.wf() && c.wf() && poster_step(before, a, config.poster, crop, preview)
            && border_step(a, b, config.poster) && stamp_step(b, c, config.text_layer(text_stamp))
            && stamp_step(c, after, config.watermark_layer(watermark_stamp))
}

/// The size of a picture after it was made a poster.
pub open spec fn size_as_poster(
    width: u32,
    height: u32,
    poster: PosterOptions,
    crop: AspectCrop,
    preview: bool,
) -> (u32, u32) {
    if !poster.resize_to_33x66cm || width == 0 || height == 0 {
        (width, height)
    } else if preview {
        crop.size(width, height)
    } else {
        image_ops::poster_size(width, height)
    }
}

/// A stamp can be laid over a picture.
pub open spec fn stamp_fits(layer: Option<(TextPosition, u32, Raster)>) -> bool {
    match layer {
        Some((position, margin, picture)) => {
            &&& picture.wf()
            &&& picture.pixel_bytes == 4
            &&& picture.width + margin <= u32::MAX
            &&& picture.height + margin <= u32::MAX
        },
        None => true,
    }
}

/// All that is to be done to a picture of this size can be done: the crop leaves
/// something, and no picture on the way is too large.
pub open spec fn effects_fit(
    width: u32,
    height: u32,
    poster: PosterOptions,
    crop: AspectCrop,
    preview: bool,
) -> bool {
    let size = size_as_poster(width, height, poster, crop, preview);
    &&& poster.resize_to_33x66cm && width > 0 && height > 0 ==> crop.fits(width, height) && (preview
        || image_ops::can_make_poster(width, height))
    &&& image_ops::can_border(size.0, size.1, poster.margin_px)
}

/// Whether all that is to be done to a picture of this size can be done.
pub fn effects_are_possible(
    width: u32,
    height: u32,
    poster: PosterOptions,
    crop: AspectCrop,
    preview: bool,
) -> (possible: bool)
    ensures
        possible == effects_fit(width, height, poster, crop, preview),
{
    if !poster.resize_to_33x66cm || width == 0 || height == 0 {
        return image_ops::border_is_possible(width, height, poster.margin_px);
    }
    if !crop.is_possible(width, height) {
        return false;
    }
    if !preview && !image_ops::poster_is_possible(width, height) {
        return false;
    }
    let (w, h): (u32, u32) = if preview {
        match crop {
            AspectCrop::Keep => (width, height),
            AspectCrop::ToWidth(w) => (w, height),
            AspectCrop::ToHeight(h) => (width, h),
        }
    } else {
        image_ops::poster_dimensions(width, height)
    };
    image_ops::border_is_possible(w, h, poster.margin_px)
}

/// Whether a picture can be laid over others as a stamp.
pub fn stamp_is_possible(picture: &Raster, position: TextPosition, margin: u32) -> (possible: bool)
    ensures
        possible == stamp_fits(Some((position, margin, *picture))),
{
    picture.is_whole() && picture.pixel_bytes == 4 && picture.width as u64 + margin as u64
        <= 0xffff_ffff && picture.height as u64 + margin as u64 <= 0xffff_ffff
}

/// Does all that a batch asks for to a picture. The stamps are those for the text and
/// for the watermark; without a stamp, nothing is laid over the picture.
fn apply_effects_internal(
    img: Raster,
    config: &BatchConfig,
    crop: AspectCrop,
    text_stamp: Option<&Raster>,
    watermark_stamp: Option<&Raster>,
    preview: bool,
) -> (out: Raster)
    requires
        img.wf(),
        effects_fit(img.width, img.height, config.poster, crop, preview),
        stamp_fits(config.text_layer(owned_stamp(text_stamp))),
        stamp_fits(config.watermark_layer(owned_stamp(watermark_stamp))),
    ensures
        out.wf(),
        effects_applied(
            img,
            out,
            *config,
            crop,
            owned_stamp(text_stamp),
            owned_stamp(watermark_stamp),
            preview,
        ),
{
    let ghost before = img;
    let posted = if config.poster.resize_to_33x66cm {
        if preview {
            image_ops::crop_to_33x66cm_poster_aspect(img, crop)
        } else {
            image_ops::resize_to_33x66cm_poster(img, crop)
        }
    } else {
        img
    };
    let ghost a = posted;
    assert(poster_step(before, a, config.poster, crop, preview));
    let framed = if config.poster.margin_px > 0 {
        image_ops::add_white_border(posted, config.poster.margin_px)
    } else {
        posted
    };
    let ghost b = framed;
    assert(border_step(a, b, config.poster));
    let titled = match (&config.text_overlay, text_stamp) {
        (Some(overlay), Some(stamp)) => image_ops::overlay_text_with_stamp(framed, overlay, stamp),
        _ => framed,
    };
    let ghost c = titled;
    assert(stamp_step(b, c, config.text_layer(owned_stamp(text_stamp))));
    let out = match (&config.watermark, watermark_stamp) {
        (Some(watermark), Some(stamp)) => image_ops::overlay_stamp_with_position(
            titled,
            watermark.position,
            watermark.margin,
            stamp,
        ),
        _ => titled,
    };
    assert(stamp_step(c, out, config.watermark_layer(owned_stamp(watermark_stamp))));
    out
}

/// A stamp that is lent, as one that is owned.
pub open spec fn owned_stamp(stamp: Option<&Raster>) -> Option<Raster> {
    match stamp {
        Some(s) => Some(*s),
        None => None,
    }
}

/// Does to a picture all that its export asks for.
pub fn apply_export_effects(
    img: Raster,
    config: &BatchConfig,
    crop: AspectCrop,
    text_stamp: Option<&Raster>,
    watermark_stamp: Option<&Raster>,
) -> (out: Raster)
    requires
        img.wf(),
        effects_fit(img.width, img.height, config.poster, crop, false),
        stamp_fits(config.text_layer(owned_stamp(text_stamp))),
        stamp_fits(config.watermark_layer(owned_stamp(watermark_stamp))),
    ensures
        out.wf(),
        effects_applied(
            img,
            out,
            *config,
            crop,
            owned_stamp(text_stamp),
            owned_stamp(watermark_stamp),
            false,
        ),
{
    apply_effects_internal(img, config, crop, text_stamp, watermark_stamp, false)
}

/// Does to a picture what its export asks for, except that a poster keeps the
/// picture's resolution.
pub fn apply_preview_effects(
    img: Raster,
    config: &BatchConfig,
    crop: AspectCrop,
    text_stamp: Option<&Raster>,
    watermark_stamp: Option<&Raster>,
) -> (out: Raster)
    requires
        img.wf(),
        effects_fit(img.width, img.height, config.poster, crop, true),
        stamp_fits(config.text_layer(owned_stamp(text_stamp))),
        stamp_fits(config.watermark_layer(owned_stamp(watermark_stamp))),
    ensures
        out.wf(),
        effects_applied(
            img,
            out,
            *config,
            crop,
            owned_stamp(text_stamp),
            owned_stamp(watermark_stamp),
            true,
        ),
{
    apply_effects_internal(img, config, crop, text_stamp, watermark_stamp, true)
}

/// Where no poster is made, the preview of a picture is what its export looks like.
pub proof fn preview_shows_the_export(
    before: Raster,
    after: Raster,
    config: BatchConfig,
    crop: AspectCrop,
    text_stamp: Option<Raster>,
    watermark_stamp: Option<Raster>,
)
    requires
        !config.poster.resize_to_33x66cm,
    ensures
        effects_applied(before, after, config, crop, text_stamp, watermark_stamp, true)
            == effects_applied(before, after, config, crop, text_stamp, watermark_stamp, false),
{
    let text_layer = config.text_layer(text_stamp);
    let watermark_layer = config.watermark_layer(watermark_stamp);
    if effects_applied(before, after, config, crop, text_stamp, watermark_stamp, true) {
        let (a, b, c) = choose|a: Raster, b: Raster, c: Raster|
            #![trigger poster_step(before, a, config.poster, crop, true), border_step(a, b, config.poster), stamp_step(b, c, text_layer)]
            a.wf() && b.wf() && c.wf() && poster_step(before, a, config.poster, crop, true)
                && border_step(a, b, config.poster) && stamp_step(b, c, text_layer) && stamp_step(
                c,
                after,
                watermark_layer,
            );
        assert(poster_step(before, a, config.poster, crop, false));
    }
    if effects_applied(before, after, config, crop, text_stamp, watermark_stamp, false) {
        let (a, b, c) = choose|a: Raster, b: Raster, c: Raster|
            #![trigger poster_step(before, a, config.poster, crop, false), border_step(a, b, config.poster), stamp_step(b, c, text_layer)]
            a.wf() && b.wf() && c.wf() && poster_step(before, a, config.poster, crop, false)
                && border_step(a, b, config.poster) && stamp_step(b, c, text_layer) && stamp_step(
                c,
                after,
                watermark_layer,
            );
        assert(poster_step(before, a, config.poster, crop, true));
    }
}

/// A picture that nothing is asked for keeps its size and its values.
pub proof fn no_effects_keep_the_picture(
    before: Raster,
    after: Raster,
    config: BatchConfig,
    crop: AspectCrop,
    preview: bool,
)
    requires
        !config.poster.resize_to_33x66cm,
        config.poster.margin_px == 0,
        effects_applied(before, after, config, crop, None, None, preview),
    ensures
        after.looks_like(&before),
{
}

/// What is next for a picture of a batch: it is reported, or it is written first.
#[derive(Debug)]
pub enum SingleStep {
    Report(ProcessResult),
    Write { path: FilePath, picture: Raster },
}

/// A picture was turned and then got everything that its export asks for.
pub open spec fn is_exported(
    before: Raster,
    after: Raster,
    config: BatchConfig,
    crop: AspectCrop,
    text_stamp: Option<Raster>,
    watermark_stamp: Option<Raster>,
) -> bool {
    exists|turned: Raster| #[trigger]
        raster::is_turned(before, turned, config.rotation.turn()) && turned.wf() && effects_applied(
            turned,
            after,
            config,
            crop,
            text_stamp,
            watermark_stamp,
            false,
        )
}

/// The size of a picture after it was turned.
pub open spec fn turned_size(width: u32, height: u32, rotation: Rotation) -> (u32, u32) {
    if rotation.turn().swaps() {
        (height, width)
    } else {
        (width, height)
    }
}

/// Takes a picture of a batch as far as it can be taken before it is written: one
/// that could not be loaded is reported, any other one is turned and gets all that its
/// export asks for.
pub fn process_single(
    source: &FilePath,
    loaded: Result<Raster, String>,
    config: &BatchConfig,
    crop: AspectCrop,
    text_stamp: Option<&Raster>,
    watermark_stamp: Option<&Raster>,
) -> (step: SingleStep)
    requires
        loaded matches Ok(img) ==> img.wf() && effects_fit(
            turned_size(img.width, img.height, config.rotation).0,
            turned_size(img.width, img.height, config.rotation).1,
            config.poster,
            crop,
            false,
        ),
        stamp_fits(config.text_layer(owned_stamp(text_stamp))),
        stamp_fits(config.watermark_layer(owned_stamp(watermark_stamp))),
    ensures
        match loaded {
            Err(why) => step matches SingleStep::Report(result) && result.tells(
                source@,
                Err(why@),
            ),
            Ok(img) => step matches SingleStep::Write { path, picture } && path@ == paths::joined(
                config.output_dir@,
                vstd::utf8::encode_utf8(config.export_name(export_stem(source@))),
            ) && picture.wf() && is_exported(
                img,
                picture,
                *config,
                crop,
                owned_stamp(text_stamp),
                owned_stamp(watermark_stamp),
            ),
        },
{
    let img = match loaded {
        Ok(img) => img,
        Err(why) => {
            return SingleStep::Report(
                ProcessResult { source: source.clone(), success: false, error: Some(why) },
            );
        },
    };
    let turned = image_ops::rotate_image(&img, config.rotation);
    assert(raster::is_turned(img, turned, config.rotation.turn()));
    let picture = apply_export_effects(turned, config, crop, text_stamp, watermark_stamp);
    let stem = stem_for_export(source);
    SingleStep::Write { path: config.output_path(stem.as_str()), picture }
}

/// The result of a picture that was written, or could not be.
pub fn single_result(source: &FilePath, written: Result<(), String>) -> (result: ProcessResult)
    ensures
        result.tells(source@, outcome_text(written)),
{
    match written {
        Ok(()) => ProcessResult { source: source.clone(), success: true, error: None },
        Err(why) => ProcessResult { source: source.clone(), success: false, error: Some(why) },
    }
}

/// A file's exported version has the file's name with `.jpg` or `.pdf` behind it, as the
/// format asks.
pub proof fn exports_are_named_after_their_files(config: BatchConfig, stem: Seq<char>)
    ensures
        ({
            let name = config.export_name(stem);
            let end = name.skip(stem.len() as int);
            &&& name.len() == stem.len() + 4
            &&& name.take(stem.len() as int) == stem
            &&& config.output_format == OutputFormat::Jpeg ==> end == seq!['.', 'j', 'p', 'g']
            &&& config.output_format == OutputFormat::Pdf ==> end == seq!['.', 'p', 'd', 'f']
        }),
{
    reveal_strlit(".jpg");
    reveal_strlit(".pdf");
    let name = config.export_name(stem);
    assert(name.take(stem.len() as int) =~= stem);
    assert(config.output_format == OutputFormat::Jpeg ==> name.skip(stem.len() as int)
        =~= seq!['.', 'j', 'p', 'g']);
    assert(config.output_format == OutputFormat::Pdf ==> name.skip(stem.len() as int)
        =~= seq!['.', 'p', 'd', 'f']);
}

/// Every picture that text is laid over gets the text that is made for its file, whether one
/// stamp serves all of them or each has its own. Without text to lay over there is neither.
pub proof fn every_picture_gets_its_text(config: BatchConfig, filename: Seq<char>)
    ensures
        match config.text_overlay {
            Some(overlay) => {
                &&& config.common_text() matches Some(shared) ==> shared == overlay.text_for(
                    filename,
                ) && config.own_text(filename, true) is None
                &&& config.common_text() is None ==> config.own_text(filename, false) == Some(
                    overlay.text_for(filename),
                )
                &&& config.common_text() is None <==> text::occurs_in(
                    overlay.text_template@,
                    "{filename}"@,
                )
            },
            None => config.common_text() is None && config.own_text(filename, true) is None
                && config.own_text(filename, false) is None,
        },
{
    if let Some(overlay) = config.text_overlay {
        if !overlay.names_file() {
            image_ops::one_stamp_serves_all(overlay, Seq::empty(), filename);
        }
    }
}

/// A watermark that is to match the picture turns with it, and any other one is turned the
/// same way on every picture.
pub proof fn watermarks_turn_as_asked(watermark: WatermarkRotation, a: Rotation, b: Rotation)
    ensures
        watermark == WatermarkRotation::MatchImage ==> watermark.resolved(a) == a
            && watermark.resolved(b) == b,
        watermark matches WatermarkRotation::Fixed(own) ==> watermark.resolved(a) == own
            && watermark.resolved(a) == watermark.resolved(b),
{
}

/// A result has an error just when the picture failed, and names the picture.
pub proof fn failures_have_their_reason(
    result: ProcessResult,
    source: Seq<u8>,
    outcome: Result<(), Seq<char>>,
)
    requires
        result.tells(source, outcome),
    ensures
        result.source@ == source,
        result.success <==> result.error is None,
        result.success <==> outcome is Ok,
        outcome matches Err(why) ==> result.error matches Some(error) && error@ == why,
{
}

/// The size that is foretold for a turned picture is the one it has: the other way around by
/// a quarter turn either way, and otherwise the same.
pub proof fn turned_pictures_have_the_foretold_size(
    before: Raster,
    after: Raster,
    rotation: Rotation,
)
    requires
        raster::is_turned(before, after, rotation.turn()),
    ensures
        turned_size(before.width, before.height, rotation) == (after.width, after.height),
        rotation == Rotation::Cw90 || rotation == Rotation::Cw270 ==> turned_size(
            before.width,
            before.height,
            rotation,
        ) == (before.height, before.width),
        rotation == Rotation::NoTurn || rotation == Rotation::Cw180 ==> turned_size(
            before.width,
            before.height,
            rotation,
        ) == (before.width, before.height),
{
}

/// An exported picture has the size of its poster, where one is made of it, and of itself
/// otherwise, with the margin on all sides; text and watermark do not change its size.
pub proof fn exports_have_the_size_asked_for(
    before: Raster,
    after: Raster,
    config: BatchConfig,
    crop: AspectCrop,
    text_stamp: Option<Raster>,
    watermark_stamp: Option<Raster>,
)
    requires
        effects_applied(before, after, config, crop, text_stamp, watermark_stamp, false),
        before.width > 0,
        before.height > 0,
        before.width + 2 * config.poster.margin_px <= u32::MAX,
        before.height + 2 * config.poster.margin_px <= u32::MAX,
        7795 + 2 * config.poster.margin_px <= u32::MAX,
    ensures
        ({
            let across = after.width - 2 * config.poster.margin_px;
            let down = after.height - 2 * config.poster.margin_px;
            if !config.poster.resize_to_33x66cm {
                across == before.width && down == before.height
            } else if before.width >= before.height {
                across == 7795 && down == 3898
            } else {
                across == 3898 && down == 7795
            }
        }),
{
    let text_layer = config.text_layer(text_stamp);
    let watermark_layer = config.watermark_layer(watermark_stamp);
    let (a, b, c) = choose|a: Raster, b: Raster, c: Raster|
        #![trigger poster_step(before, a, config.poster, crop, false), border_step(a, b, config.poster), stamp_step(b, c, text_layer)]
        a.wf() && b.wf() && c.wf() && poster_step(before, a, config.poster, crop, false)
            && border_step(a, b, config.poster) && stamp_step(b, c, text_layer) && stamp_step(
            c,
            after,
            watermark_layer,
        );
    if config.poster.resize_to_33x66cm {
        image_ops::posters_have_their_size(before, a, crop);
    }
    assert(after.width == b.width && after.height == b.height);
}

/// The watermark lies over everything else: where it is opaque it is what the exported
/// picture shows.
pub proof fn watermarks_lie_on_top(
    before: Raster,
    after: Raster,
    config: BatchConfig,
    crop: AspectCrop,
    text_stamp: Option<Raster>,
    watermark: Raster,
    preview: bool,
    x: int,
    y: int,
)
    requires
        effects_applied(before, after, config, crop, text_stamp, Some(watermark), preview),
        config.watermark is Some,
        0 <= x < after.width,
        0 <= y < after.height,
    ensures
        ({
            let mark = config.watermark->0;
            let place = image_ops::stamp_place(
                mark.position,
                mark.margin,
                after.width,
                after.height,
                watermark.width,
                watermark.height,
            );
            let over = image_ops::pixel(
                watermark.pixels@,
                watermark.width as int,
                x - place.0,
                y - place.1,
            );
            place.0 <= x < place.0 + watermark.width && place.1 <= y < place.1 + watermark.height
                && over[3] == 255 ==> image_ops::pixel(after.pixels@, after.width as int, x, y)
                == over
        }),
{
}

/// Text lies over the picture and its border: where it is opaque it is what the exported
/// picture shows, unless a watermark is laid over it.
pub proof fn text_lies_on_the_picture(
    before: Raster,
    after: Raster,
    config: BatchConfig,
    crop: AspectCrop,
    text: Raster,
    preview: bool,
    x: int,
    y: int,
)
    requires
        effects_applied(before, after, config, crop, Some(text), None, preview),
        config.text_overlay is Some,
        0 <= x < after.width,
        0 <= y < after.height,
    ensures
        ({
            let overlay = config.text_overlay->0;
            let place = image_ops::stamp_place(
                overlay.position,
                overlay.margin,
                after.width,
                after.height,
                text.width,
                text.height,
            );
            let over = image_ops::pixel(
                text.pixels@,
                text.width as int,
                x - place.0,
                y - place.1,
            );
            place.0 <= x < place.0 + text.width && place.1 <= y < place.1 + text.height && over[3]
                == 255 ==> image_ops::pixel(after.pixels@, after.width as int, x, y) == over
        }),
{
}

/// The preview of a poster has the size that the crop leaves, with the margin on all sides: it
/// keeps the picture's resolution.
pub proof fn previews_of_posters_keep_the_resolution(
    before: Raster,
    after: Raster,
    config: BatchConfig,
    crop: AspectCrop,
    text_stamp: Option<Raster>,
    watermark_stamp: Option<Raster>,
)
    requires
        effects_applied(before, after, config, crop, text_stamp, watermark_stamp, true),
        config.poster.resize_to_33x66cm,
        before.width > 0,
        before.height > 0,
        crop.fits(before.width, before.height),
        before.width + 2 * config.poster.margin_px <= u32::MAX,
        before.height + 2 * config.poster.margin_px <= u32::MAX,
    ensures
        ({
            let across = after.width - 2 * config.poster.margin_px;
            let down = after.height - 2 * config.poster.margin_px;
            match crop {
                AspectCrop::Keep => across == before.width && down == before.height,
                AspectCrop::ToWidth(w) => across == w && down == before.height,
                AspectCrop::ToHeight(h) => across == before.width && down == h,
            }
        }),
{
    let text_layer = config.text_layer(text_stamp);
    let watermark_layer = config.watermark_layer(watermark_stamp);
    let (a, b, c) = choose|a: Raster, b: Raster, c: Raster|
        #![trigger poster_step(before, a, config.poster, crop, true), border_step(a, b, config.poster), stamp_step(b, c, text_layer)]
        a.wf() && b.wf() && c.wf() && poster_step(before, a, config.poster, crop, true)
            && border_step(a, b, config.poster) && stamp_step(b, c, text_layer) && stamp_step(
            c,
            after,
            watermark_layer,
        );
    let start = image_ops::crops_keep_the_middle(before, a, crop);
    assert(after.width == b.width && after.height == b.height);
}

/// Whatever can be done is done: where no poster and no margin is asked for nothing stands in
/// the way; a margin alone only needs room in memory; and a poster needs a crop that leaves
/// something and, but for a preview, sides and room for its size.
pub proof fn effects_are_refused_only_for_want_of_room(
    width: u32,
    height: u32,
    poster: PosterOptions,
    crop: AspectCrop,
    preview: bool,
)
    requires
        width > 0,
        height > 0,
        width + 2 * poster.margin_px <= u32::MAX,
        height + 2 * poster.margin_px <= u32::MAX,
        7795 + 2 * poster.margin_px <= u32::MAX,
    ensures
        !poster.resize_to_33x66cm && poster.margin_px == 0 ==> effects_fit(
            width,
            height,
            poster,
            crop,
            preview,
        ),
        !poster.resize_to_33x66cm && (width + 2 * poster.margin_px) * (height + 2
            * poster.margin_px) * 4 <= usize::MAX ==> effects_fit(
            width,
            height,
            poster,
            crop,
            preview,
        ),
        poster.resize_to_33x66cm && poster.margin_px == 0 && preview ==> (effects_fit(
            width,
            height,
            poster,
            crop,
            preview,
        ) <==> crop.fits(width, height)),
        poster.resize_to_33x66cm && poster.margin_px == 0 && !preview ==> (effects_fit(
            width,
            height,
            poster,
            crop,
            preview,
        ) <==> crop.fits(width, height) && image_ops::can_make_poster(width, height)),
{
}

/// A stamp can be laid over a picture where it is whole, with an opacity, and its margin can
/// be counted.
pub proof fn stamps_need_to_be_whole(position: TextPosition, margin: u32, picture: Raster)
    ensures
        stamp_fits(Some((position, margin, picture))) <==> picture.wf() && picture.pixel_bytes == 4
            && picture.width + margin <= 0xffff_ffff && picture.height + margin <= 0xffff_ffff,
        stamp_fits(None),
{
}

/// A picture is turned before anything else is done to it. An export that asks for no poster,
/// no margin, no text and no watermark is the turned picture and nothing else.
pub proof fn exports_are_turned_first(
    before: Raster,
    after: Raster,
    config: BatchConfig,
    crop: AspectCrop,
    text_stamp: Option<Raster>,
    watermark_stamp: Option<Raster>,
) -> (turned: Raster)
    requires
        is_exported(before, after, config, crop, text_stamp, watermark_stamp),
    ensures
        raster::is_turned(before, turned, config.rotation.turn()),
        effects_applied(turned, after, config, crop, text_stamp, watermark_stamp, false),
        config.rotation == Rotation::Cw90 || config.rotation == Rotation::Cw270 ==> turned.width
            == before.height && turned.height == before.width,
        config.rotation == Rotation::NoTurn || config.rotation == Rotation::Cw180 ==> turned.width
            == before.width && turned.height == before.height,
        !config.poster.resize_to_33x66cm && config.poster.margin_px == 0 && (
        config.text_overlay is None || text_stamp is None) && (config.watermark is None
            || watermark_stamp is None) ==> after.looks_like(&turned),
{
    let turned = choose|turned: Raster| #[trigger]
        raster::is_turned(before, turned, config.rotation.turn()) && turned.wf() && effects_applied(
            turned,
            after,
            config,
            crop,
            text_stamp,
            watermark_stamp,
            false,
        );
    turned_pictures_have_the_foretold_size(before, turned, config.rotation);
    let text_layer = config.text_layer(text_stamp);
    let watermark_layer = config.watermark_layer(watermark_stamp);
    let (a, b, c) = choose|a: Raster, b: Raster, c: Raster|
        #![trigger poster_step(turned, a, config.poster, crop, false), border_step(a, b, config.poster), stamp_step(b, c, text_layer)]
        a.wf() && b.wf() && c.wf() && poster_step(turned, a, config.poster, crop, false)
            && border_step(a, b, config.poster) && stamp_step(b, c, text_layer) && stamp_step(
            c,
            after,
            watermark_layer,
        );
    turned
}

}
