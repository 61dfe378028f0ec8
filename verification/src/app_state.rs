//! The main window: what is chosen in it, what follows from a choice, and what it
//! shows.

use crate::batch;
use crate::batch::{
    BatchConfig, OutputFormat, PosterOptions, ProcessResult, WatermarkConfig, WatermarkRotation,
};
use crate::image_loader;
use crate::image_ops::{Rotation, TextColor, TextOverlayConfig, TextPosition};
use crate::note;
use crate::note::Note;
use crate::numbered_sort::{
    NumberedSortConfig, NumberedSortMode, NumberedSortResult, NumberedSortSummary,
};
use crate::numbering_state;
use crate::paths;
use crate::paths::FilePath;
use crate::score::Score;
use crate::text;
use vstd::prelude::*;

verus! {

/// What the window is used for.
#[derive(Clone, Copy, Debug, PartialEq, Eq, Structural)]
pub enum AppMode {
    BatchProcessing,
    Numbering,
    Sorting,
}

/// Something that can be chosen from a list, and how it is called there.
#[derive(Debug)]
pub struct SelectOption<V> {
    pub label: String,
    pub value: V,
}

/// What a list offers.
pub open spec fn offers<V>(options: Seq<SelectOption<V>>, labels: Seq<Seq<char>>, values: Seq<V>) -> bool {
    &&& options.len() == labels.len()
    &&& options.len() == values.len()
    &&& forall|i: int|
        0 <= i < options.len() ==> (#[trigger] options[i]).label@ == labels[i] && options[i].value
            == values[i]
}

/// The formats to choose from.
pub fn format_options() -> (options: Vec<SelectOption<OutputFormat>>)
    ensures
        offers(options@, seq!["JPEG"@, "PDF"@], seq![OutputFormat::Jpeg, OutputFormat::Pdf]),
{
    let mut options: Vec<SelectOption<OutputFormat>> = Vec::new();
    options.push(SelectOption { label: text::owned("JPEG"), value: OutputFormat::Jpeg });
    options.push(SelectOption { label: text::owned("PDF"), value: OutputFormat::Pdf });
    options
}

/// The turns to choose from.
pub fn rotation_options() -> (options: Vec<SelectOption<Rotation>>)
    ensures
        offers(
            options@,
            seq!["None"@, "90° CW"@, "180°"@, "270° CW"@],
            seq![Rotation::NoTurn, Rotation::Cw90, Rotation::Cw180, Rotation::Cw270],
        ),
{
    let mut options: Vec<SelectOption<Rotation>> = Vec::new();
    options.push(SelectOption { label: text::owned("None"), value: Rotation::NoTurn });
    options.push(SelectOption { label: text::owned("90° CW"), value: Rotation::Cw90 });
    options.push(SelectOption { label: text::owned("180°"), value: Rotation::Cw180 });
    options.push(SelectOption { label: text::owned("270° CW"), value: Rotation::Cw270 });
    options
}

/// The turns of a watermark to choose from.
pub fn watermark_rotation_options() -> (options: Vec<SelectOption<WatermarkRotation>>)
    ensures
        offers(
            options@,
            seq!["Match Image Rotation"@, "None"@, "90° CW"@, "180°"@, "270° CW"@],
            seq![
                WatermarkRotation::MatchImage,
                WatermarkRotation::Fixed(Rotation::NoTurn),
                WatermarkRotation::Fixed(Rotation::Cw90),
                WatermarkRotation::Fixed(Rotation::Cw180),
                WatermarkRotation::Fixed(Rotation::Cw270),
            ],
        ),
{
    let mut options: Vec<SelectOption<WatermarkRotation>> = Vec::new();
    options.push(
        SelectOption {
            label: text::owned("Match Image Rotation"),
            value: WatermarkRotation::MatchImage,
        },
    );
    options.push(
        SelectOption {
            label: text::owned("None"),
            value: WatermarkRotation::Fixed(Rotation::NoTurn),
        },
    );
    options.push(
        SelectOption {
            label: text::owned("90° CW"),
            value: WatermarkRotation::Fixed(Rotation::Cw90),
        },
    );
    options.push(
        SelectOption {
            label: text::owned("180°"),
            value: WatermarkRotation::Fixed(Rotation::Cw180),
        },
    );
    options.push(
        SelectOption {
            label: text::owned("270° CW"),
            value: WatermarkRotation::Fixed(Rotation::Cw270),
        },
    );
    options
}

/// The places to choose from.
pub fn position_options() -> (options: Vec<SelectOption<TextPosition>>)
    ensures
        offers(
            options@,
            seq!["Top Left"@, "Top Right"@, "Bottom Left"@, "Bottom Right"@, "Center"@],
            seq![
                TextPosition::TopLeft,
                TextPosition::TopRight,
                TextPosition::BottomLeft,
                TextPosition::BottomRight,
                TextPosition::Center,
            ],
        ),
{
    let mut options: Vec<SelectOption<TextPosition>> = Vec::new();
    options.push(SelectOption { label: text::owned("Top Left"), value: TextPosition::TopLeft });
    options.push(SelectOption { label: text::owned("Top Right"), value: TextPosition::TopRight });
    options.push(
        SelectOption { label: text::owned("Bottom Left"), value: TextPosition::BottomLeft },
    );
    options.push(
        SelectOption { label: text::owned("Bottom Right"), value: TextPosition::BottomRight },
    );
    options.push(SelectOption { label: text::owned("Center"), value: TextPosition::Center });
    options
}

/// The row of the list of formats that is chosen at first.
pub const FORMAT_ROW: usize = 1;

/// The row of the list of turns that is chosen at first.
pub const ROTATION_ROW: usize = 0;

/// The row of the list of a watermark's turns that is chosen at first.
pub const WATERMARK_ROTATION_ROW: usize = 0;

/// The row of the list of the text's places that is chosen at first.
pub const POSITION_ROW: usize = 3;

/// The row of the list of the watermark's places that is chosen at first.
pub const WATERMARK_POSITION_ROW: usize = 4;

/// A slider: the ends of its range, its steps, and where it stands at first.
#[derive(Clone, Copy, Debug, PartialEq, Eq, Structural)]
pub struct SliderRange {
    pub min: Score,
    pub max: Score,
    pub step: Score,
    pub start: Score,
}

/// The sliders of the window.
#[derive(Clone, Copy, Debug, PartialEq, Eq, Structural)]
pub enum SliderKind {
    Quality,
    FontSize,
    TextMargin,
    PosterMargin,
    WatermarkMargin,
    WatermarkScale,
    WatermarkOpacity,
}

/// The patterns of a slider's range.
pub open spec fn slider_bits(kind: SliderKind) -> (u32, u32, u32, u32) {
    match kind {
        SliderKind::Quality => (0x3f80_0000, 0x42c8_0000, 0x3f80_0000, 0x428c_0000),
        SliderKind::FontSize => (0x4100_0000, 0x4348_0000, 0x3f80_0000, 0x41c0_0000),
        SliderKind::TextMargin => (0, 0x4348_0000, 0x3f80_0000, 0x4120_0000),
        SliderKind::PosterMargin => (0, 0x43c8_0000, 0x3f80_0000, 0x4220_0000),
        SliderKind::WatermarkMargin => (0, 0x4348_0000, 0x3f80_0000, 0x4120_0000),
        SliderKind::WatermarkScale => (0x40a0_0000, 0x4396_0000, 0x3f80_0000, 0x42c8_0000),
        SliderKind::WatermarkOpacity => (0x3d4c_cccd, 0x3f80_0000, 0x3d4c_cccd, 0x3e80_0000),
    }
}

/// The range of a slider: quality from 1 to 100, starting at 70; font size from 8 to
/// 200, at 24; margins from 0 to 200, at 10, and of posters to 400, at 40; scale from
/// 5 to 300, at 100; and opacity from 0.05 to 1 in steps of 0.05, at 0.25.
pub fn slider_range(kind: SliderKind) -> (range: SliderRange)
    ensures
        range == (SliderRange {
            min: Score { bits: slider_bits(kind).0 },
            max: Score { bits: slider_bits(kind).1 },
            step: Score { bits: slider_bits(kind).2 },
            start: Score { bits: slider_bits(kind).3 },
        }),
{
    let (min, max, step, start): (u32, u32, u32, u32) = match kind {
        SliderKind::Quality => (0x3f80_0000, 0x42c8_0000, 0x3f80_0000, 0x428c_0000),
        SliderKind::FontSize => (0x4100_0000, 0x4348_0000, 0x3f80_0000, 0x41c0_0000),
        SliderKind::TextMargin => (0, 0x4348_0000, 0x3f80_0000, 0x4120_0000),
        SliderKind::PosterMargin => (0, 0x43c8_0000, 0x3f80_0000, 0x4220_0000),
        SliderKind::WatermarkMargin => (0, 0x4348_0000, 0x3f80_0000, 0x4120_0000),
        SliderKind::WatermarkScale => (0x40a0_0000, 0x4396_0000, 0x3f80_0000, 0x42c8_0000),
        SliderKind::WatermarkOpacity => (0x3d4c_cccd, 0x3f80_0000, 0x3d4c_cccd, 0x3e80_0000),
    };
    SliderRange {
        min: Score { bits: min },
        max: Score { bits: max },
        step: Score { bits: step },
        start: Score { bits: start },
    }
}

/// What is chosen for a batch.
#[derive(Debug)]
pub struct BatchSettings {
    pub quality: u8,
    pub rotation: Rotation,
    pub output_format: OutputFormat,
    pub text_enabled: bool,
    pub text_template: String,
    pub text_position: TextPosition,
    pub text_font_size: Score,
    pub text_edge_margin: u32,
    pub text_color_r: u8,
    pub text_color_g: u8,
    pub text_color_b: u8,
    pub poster_resize_33x66: bool,
    pub poster_margin_enabled: bool,
    pub poster_margin_px: u32,
    pub watermark_enabled: bool,
    pub watermark_image_path: Option<FilePath>,
    pub watermark_position: TextPosition,
    pub watermark_edge_margin: u32,
    pub watermark_scale_percent: Score,
    pub watermark_opacity: Score,
    pub watermark_rotation: WatermarkRotation,
}

/// A choice that is made in the window.
#[derive(Debug)]
pub enum SettingChange {
    Quality(u8),
    Turn(Rotation),
    Format(OutputFormat),
    TextEnabled(bool),
    Template(String),
    TextPlace(TextPosition),
    FontSize(Score),
    TextMargin(u32),
    Color(u8, u8, u8),
    PosterResize(bool),
    PosterMarginEnabled(bool),
    PosterMargin(u32),
    WatermarkEnabled(bool),
    WatermarkImage(FilePath),
    WatermarkPlace(TextPosition),
    WatermarkMargin(u32),
    WatermarkScale(Score),
    WatermarkOpacity(Score),
    WatermarkTurn(WatermarkRotation),
}

impl SettingChange {
    /// The choice changes what the preview looks like.
    pub open spec fn shows(self) -> bool {
        !(self is Quality) && !(self is Format)
    }
}

impl BatchSettings {
    /// The choices after one more was made.
    pub open spec fn changed(self, change: SettingChange) -> BatchSettings {
        match change {
            SettingChange::Quality(v) => BatchSettings { quality: v, ..self },
            SettingChange::Turn(v) => BatchSettings { rotation: v, ..self },
            SettingChange::Format(v) => BatchSettings { output_format: v, ..self },
            SettingChange::TextEnabled(v) => BatchSettings { text_enabled: v, ..self },
            SettingChange::Template(v) => BatchSettings { text_template: v, ..self },
            SettingChange::TextPlace(v) => BatchSettings { text_position: v, ..self },
            SettingChange::FontSize(v) => BatchSettings { text_font_size: v, ..self },
            SettingChange::TextMargin(v) => BatchSettings { text_edge_margin: v, ..self },
            SettingChange::Color(r, g, b) => BatchSettings {
                text_color_r: r,
                text_color_g: g,
                text_color_b: b,
                ..self
            },
            SettingChange::PosterResize(v) => BatchSettings { poster_resize_33x66: v, ..self },
            SettingChange::PosterMarginEnabled(v) => BatchSettings {
                poster_margin_enabled: v,
                ..self
            },
            SettingChange::PosterMargin(v) => BatchSettings { poster_margin_px: v, ..self },
            SettingChange::WatermarkEnabled(v) => BatchSettings { watermark_enabled: v, ..self },
            SettingChange::WatermarkImage(v) => BatchSettings {
                watermark_image_path: Some(v),
                ..self
            },
            SettingChange::WatermarkPlace(v) => BatchSettings { watermark_position: v, ..self },
            SettingChange::WatermarkMargin(v) => BatchSettings {
                watermark_edge_margin: v,
                ..self
            },
            SettingChange::WatermarkScale(v) => BatchSettings {
                watermark_scale_percent: v,
                ..self
            },
            SettingChange::WatermarkOpacity(v) => BatchSettings { watermark_opacity: v, ..self },
            SettingChange::WatermarkTurn(v) => BatchSettings { watermark_rotation: v, ..self },
        }
    }

    /// What is chosen at first: a quality of 70, no turn, PDF, and neither text nor
    /// poster nor watermark.
    pub open spec fn is_initial(&self) -> bool {
        &&& self.quality == 70
        &&& self.rotation == Rotation::NoTurn
        &&& self.output_format == OutputFormat::Pdf
        &&& !self.text_enabled
        &&& self.text_template@ == "{filename}"@
        &&& self.text_position == TextPosition::BottomRight
        &&& self.text_font_size.bits == 0x41c0_0000
        &&& self.text_edge_margin == 10
        &&& self.text_color_r == 255
        &&& self.text_color_g == 255
        &&& self.text_color_b == 255
        &&& !self.poster_resize_33x66
        &&& !self.poster_margin_enabled
        &&& self.poster_margin_px == 40
        &&& !self.watermark_enabled
        &&& self.watermark_image_path is None
        &&& self.watermark_position == TextPosition::Center
        &&& self.watermark_edge_margin == 10
        &&& self.watermark_scale_percent.bits == 0x42c8_0000
        &&& self.watermark_opacity.bits == 0x3e80_0000
        &&& self.watermark_rotation == WatermarkRotation::MatchImage
    }

    /// What is chosen at first.
    pub fn new() -> (settings: BatchSettings)
        ensures
            settings.is_initial(),
    {
        BatchSettings {
            quality: 70,
            rotation: Rotation::NoTurn,
            output_format: OutputFormat::Pdf,
            text_enabled: false,
            text_template: text::owned("{filename}"),
            text_position: TextPosition::BottomRight,
            text_font_size: Score { bits: 0x41c0_0000 },
            text_edge_margin: 10,
            text_color_r: 255,
            text_color_g: 255,
            text_color_b: 255,
            poster_resize_33x66: false,
            poster_margin_enabled: false,
            poster_margin_px: 40,
            watermark_enabled: false,
            watermark_image_path: None,
            watermark_position: TextPosition::Center,
            watermark_edge_margin: 10,
            watermark_scale_percent: Score { bits: 0x42c8_0000 },
            watermark_opacity: Score { bits: 0x3e80_0000 },
            watermark_rotation: WatermarkRotation::MatchImage,
        }
    }

    /// Makes a choice. Returns whether the preview changes with it.
    pub fn change(&mut self, change: SettingChange) -> (shows: bool)
        ensures
            *final(self) == old(self).changed(change),
            shows == change.shows(),
    {
        match change {
            SettingChange::Quality(v) => {
                self.quality = v;
                return false;
            },
            SettingChange::Format(v) => {
                self.output_format = v;
                return false;
            },
            SettingChange::Turn(v) => {
                self.rotation = v;
            },
            SettingChange::TextEnabled(v) => {
                self.text_enabled = v;
            },
            SettingChange::Template(v) => {
                self.text_template = v;
            },
            SettingChange::TextPlace(v) => {
                self.text_position = v;
            },
            SettingChange::FontSize(v) => {
                self.text_font_size = v;
            },
            SettingChange::TextMargin(v) => {
                self.text_edge_margin = v;
            },
            SettingChange::Color(r, g, b) => {
                self.text_color_r = r;
                self.text_color_g = g;
                self.text_color_b = b;
            },
            SettingChange::PosterResize(v) => {
                self.poster_resize_33x66 = v;
            },
            SettingChange::PosterMarginEnabled(v) => {
                self.poster_margin_enabled = v;
            },
            SettingChange::PosterMargin(v) => {
                self.poster_margin_px = v;
            },
            SettingChange::WatermarkEnabled(v) => {
                self.watermark_enabled = v;
            },
            SettingChange::WatermarkImage(v) => {
                self.watermark_image_path = Some(v);
            },
            SettingChange::WatermarkPlace(v) => {
                self.watermark_position = v;
            },
            SettingChange::WatermarkMargin(v) => {
                self.watermark_edge_margin = v;
            },
            SettingChange::WatermarkScale(v) => {
                self.watermark_scale_percent = v;
            },
            SettingChange::WatermarkOpacity(v) => {
                self.watermark_opacity = v;
            },
            SettingChange::WatermarkTurn(v) => {
                self.watermark_rotation = v;
            },
        }
        true
    }

    /// A text overlay is the one that was chosen.
    pub open spec fn is_text(&self, overlay: TextOverlayConfig) -> bool {
        &&& overlay.text_template@ == self.text_template@
        &&& overlay.position == self.text_position
        &&& overlay.font_size == self.text_font_size
        &&& overlay.color == (TextColor {
            r: self.text_color_r,
            g: self.text_color_g,
            b: self.text_color_b,
            a: 255,
        })
        &&& overlay.margin == self.text_edge_margin
    }

    /// The text overlay that was chosen.
    pub fn build_text_config(&self) -> (overlay: TextOverlayConfig)
        ensures
            self.is_text(overlay),
    {
        TextOverlayConfig {
            text_template: self.text_template.clone(),
            position: self.text_position,
            font_size: self.text_font_size,
            color: TextColor {
                r: self.text_color_r,
                g: self.text_color_g,
                b: self.text_color_b,
                a: 255,
            },
            margin: self.text_edge_margin,
        }
    }

    /// The poster that was chosen.
    pub open spec fn poster(&self) -> PosterOptions {
        PosterOptions {
            resize_to_33x66cm: self.poster_resize_33x66,
            margin_px: if self.poster_margin_enabled {
                self.poster_margin_px
            } else {
                0
            },
        }
    }

    /// The poster that was chosen: its margin counts only where margins are asked for.
    pub fn build_poster_options(&self) -> (options: PosterOptions)
        ensures
            options == self.poster(),
    {
        PosterOptions {
            resize_to_33x66cm: self.poster_resize_33x66,
            margin_px: if self.poster_margin_enabled {
                self.poster_margin_px
            } else {
                0
            },
        }
    }

    /// A watermark is the one that was chosen, where there is one.
    pub open spec fn is_watermark(&self, watermark: Option<WatermarkConfig>) -> bool {
        if !self.watermark_enabled {
            watermark is None
        } else {
            match self.watermark_image_path {
                Some(path) => watermark matches Some(w) && {
                    &&& w.image_path@ == path@
                    &&& w.position == self.watermark_position
                    &&& w.margin == self.watermark_edge_margin
                    &&& w.scale_percent == self.watermark_scale_percent
                    &&& w.opacity == self.watermark_opacity
                    &&& w.rotation == self.watermark_rotation
                },
                None => watermark is None,
            }
        }
    }

    /// The watermark that was chosen, where there is one and its image is known.
    pub fn build_watermark_config(&self) -> (watermark: Option<WatermarkConfig>)
        ensures
            self.is_watermark(watermark),
    {
        if !self.watermark_enabled {
            return None;
        }
        match &self.watermark_image_path {
            Some(path) => Some(
                WatermarkConfig {
                    image_path: path.clone(),
                    position: self.watermark_position,
                    margin: self.watermark_edge_margin,
                    scale_percent: self.watermark_scale_percent,
                    opacity: self.watermark_opacity,
                    rotation: self.watermark_rotation,
                },
            ),
            None => None,
        }
    }

    /// A batch is the one that was chosen.
    pub open spec fn is_config(&self, config: BatchConfig, output_dir: Seq<u8>) -> bool {
        &&& config.quality == self.quality
        &&& config.rotation == self.rotation
        &&& config.text_overlay is Some == self.text_enabled
        &&& config.text_overlay matches Some(overlay) ==> self.is_text(overlay)
        &&& config.poster == self.poster()
        &&& self.is_watermark(config.watermark)
        &&& config.output_format == self.output_format
        &&& config.output_dir@ == output_dir
    }

    /// The batch that was chosen.
    pub fn build_config(&self, output_dir: &FilePath) -> (config: BatchConfig)
        ensures
            self.is_config(config, output_dir@),
    {
        BatchConfig {
            quality: self.quality,
            rotation: self.rotation,
            text_overlay: if self.text_enabled {
                Some(self.build_text_config())
            } else {
                None
            },
            poster: self.build_poster_options(),
            watermark: self.build_watermark_config(),
            output_format: self.output_format,
            output_dir: output_dir.clone(),
        }
    }
}

/// Nothing is done to the preview of a picture but turning it.
pub open spec fn shows_picture_alone(config: BatchConfig) -> bool {
    &&& config.text_overlay is None
    &&& !config.poster.resize_to_33x66cm
    &&& config.poster.margin_px == 0
    &&& config.watermark is None
}

/// Whether the kept preview of a picture can be shown as it is.
pub fn is_plain_preview(config: &BatchConfig) -> (plain: bool)
    ensures
        plain == shows_picture_alone(*config),
{
    config.text_overlay.is_none() && !config.poster.resize_to_33x66cm && config.poster.margin_px
        == 0 && config.watermark.is_none()
}

/// What is shown as it is looks like what is exported.
pub proof fn plain_previews_need_no_effects(
    before: crate::raster::Raster,
    after: crate::raster::Raster,
    config: BatchConfig,
    crop: crate::image_ops::AspectCrop,
    text_stamp: Option<crate::raster::Raster>,
    watermark_stamp: Option<crate::raster::Raster>,
)
    requires
        shows_picture_alone(config),
        batch::effects_applied(before, after, config, crop, text_stamp, watermark_stamp, true),
    ensures
        after.looks_like(&before),
{
}

/// The sorting of numbered files as it stands.
#[derive(Debug)]
pub struct SortingState {
    pub source_dir: Option<FilePath>,
    pub copy_files: bool,
    pub is_sorting: bool,
    pub progress: Score,
    pub status_message: String,
    pub results: Vec<NumberedSortResult>,
    pub summary: Option<NumberedSortSummary>,
}

/// What is said when a folder was sorted.
pub open spec fn sorted_message(summary: NumberedSortSummary) -> Seq<char> {
    "Sorting complete - "@ + text::decimal(summary.sorted as nat) + " sorted, "@ + text::decimal(
        summary.failed as nat,
    ) + " failed, "@ + text::decimal(summary.skipped as nat) + " skipped, "@ + text::decimal(
        summary.folders_created as nat,
    ) + " folders created"@
}

/// What the last run came to.
pub open spec fn summary_line(summary: NumberedSortSummary) -> Seq<char> {
    text::decimal(summary.discovered as nat) + " discovered, "@ + text::decimal(
        summary.sorted as nat,
    ) + " sorted, "@ + text::decimal(summary.failed as nat) + " failed, "@ + text::decimal(
        summary.skipped as nat,
    ) + " skipped, "@ + text::decimal(summary.folders_created as nat) + " folders created"@
}

/// The name that a folder is shown by.
pub open spec fn folder_label(dir: Option<FilePath>) -> Seq<char> {
    match dir {
        Some(path) => match paths::file_name_text(path@) {
            Some(name) => name,
            None => "Selected"@,
        },
        None => "Not set"@,
    }
}

fn label_of_folder(dir: &Option<FilePath>) -> (label: String)
    ensures
        label@ == folder_label(*dir),
{
    match dir {
        Some(path) => match path.file_name_text() {
            Some(name) => name,
            None => text::owned("Selected"),
        },
        None => text::owned("Not set"),
    }
}

/// The name of a file, or something else where it has none that is text.
pub open spec fn name_or(path: Seq<u8>, otherwise: Seq<char>) -> Seq<char> {
    match paths::file_name_text(path) {
        Some(name) => name,
        None => otherwise,
    }
}

fn text_name_or(path: &FilePath, otherwise: &str) -> (name: String)
    ensures
        name@ == name_or(path@, otherwise@),
{
    match path.file_name_text() {
        Some(name) => name,
        None => text::owned(otherwise),
    }
}

/// A text, or something else where there is none.
pub open spec fn text_or(s: Option<String>, otherwise: Seq<char>) -> Seq<char> {
    match s {
        Some(t) => t@,
        None => otherwise,
    }
}

fn push_text_or(out: &mut String, s: &Option<String>, otherwise: &str)
    ensures
        final(out)@ == old(out)@ + text_or(*s, otherwise@),
{
    match s {
        Some(t) => {
            text::push_text(out, t.as_str());
        },
        None => {
            text::push_text(out, otherwise);
        },
    }
}

/// How a numbered file that could not be sorted is listed.
pub open spec fn sorting_failure(result: NumberedSortResult) -> Seq<char> {
    "❌ "@ + name_or(result.source@, "?"@) + " → "@ + (match result.destination {
        Some(path) => paths::shown(path@),
        None => "no destination"@,
    }) + " (number "@ + text_or(result.number, "?"@) + "): "@ + text_or(
        result.error,
        "unknown error"@,
    )
}

fn sorting_failure_line(result: &NumberedSortResult) -> (line: String)
    ensures
        line@ == sorting_failure(*result),
{
    let mut line = text::owned("❌ ");
    let name = text_name_or(&result.source, "?");
    text::push_text(&mut line, name.as_str());
    text::push_text(&mut line, " → ");
    match &result.destination {
        Some(path) => {
            let shown = path.display_text();
            text::push_text(&mut line, shown.as_str());
        },
        None => {
            text::push_text(&mut line, "no destination");
        },
    }
    text::push_text(&mut line, " (number ");
    push_text_or(&mut line, &result.number, "?");
    text::push_text(&mut line, "): ");
    push_text_or(&mut line, &result.error, "unknown error");
    line
}

/// How many failures of a sorting are listed.
pub const SORTING_FAILURES_SHOWN: usize = 8;

/// The first lines about the files that could not be sorted.
pub open spec fn sorting_failures(results: Seq<NumberedSortResult>) -> Seq<Seq<char>> {
    let failed = results.filter(|r: NumberedSortResult| !r.success);
    Seq::new(
        if failed.len() < SORTING_FAILURES_SHOWN {
            failed.len()
        } else {
            SORTING_FAILURES_SHOWN as nat
        },
        |i: int| sorting_failure(failed[i]),
    )
}

/// What the window shows of the sorting.
#[derive(Debug)]
pub struct SortingView {
    pub folder_label: String,
    pub start_label: String,
    pub can_start: bool,
    pub summary: Option<String>,
    pub failures: Vec<String>,
}

impl SortingState {
    /// Nothing was chosen yet.
    pub open spec fn is_initial(&self) -> bool {
        &&& self.source_dir is None
        &&& !self.copy_files
        &&& !self.is_sorting
        &&& self.progress.bits == 0
        &&& self.status_message@ == "Select a folder of numbered files to sort"@
        &&& self.results@.len() == 0
        &&& self.summary is None
    }

    /// Nothing was chosen yet.
    pub fn new() -> (state: SortingState)
        ensures
            state.is_initial(),
    {
        SortingState {
            source_dir: None,
            copy_files: false,
            is_sorting: false,
            progress: Score { bits: 0 },
            status_message: text::owned("Select a folder of numbered files to sort"),
            results: Vec::new(),
            summary: None,
        }
    }

    /// A folder was chosen.
    pub fn choose_sorting_source_dir(&mut self, dir: FilePath)
        ensures
            final(self).source_dir == Some(dir),
            final(self).status_message@ == "Sorting source: "@ + paths::shown(dir@),
            final(self).results@.len() == 0,
            final(self).summary is None,
            final(self).progress.bits == 0,
            final(self).copy_files == old(self).copy_files,
            final(self).is_sorting == old(self).is_sorting,
    {
        let mut message = text::owned("Sorting source: ");
        let shown = dir.display_text();
        text::push_text(&mut message, shown.as_str());
        self.source_dir = Some(dir);
        self.status_message = message;
        self.results = Vec::new();
        self.summary = None;
        self.progress = Score { bits: 0 };
    }

    /// Files are to be copied, or moved.
    pub fn set_copy_files(&mut self, copy: bool)
        ensures
            final(self).copy_files == copy,
            final(self).results@.len() == 0,
            final(self).summary is None,
            final(self).status_message@ == (if copy {
                "Copy mode enabled - originals will stay in place"@
            } else {
                "Move mode enabled - files will be moved into number folders"@
            }),
            final(self).source_dir == old(self).source_dir,
            final(self).is_sorting == old(self).is_sorting,
            final(self).progress == old(self).progress,
    {
        self.copy_files = copy;
        self.results = Vec::new();
        self.summary = None;
        self.status_message = if copy {
            text::owned("Copy mode enabled - originals will stay in place")
        } else {
            text::owned("Move mode enabled - files will be moved into number folders")
        };
    }

    /// Starts sorting, unless it is going on or no folder was chosen. Returns what is to
    /// be sorted.
    pub fn start_sorting(&mut self) -> (config: Option<NumberedSortConfig>)
        ensures
            config is Some == (!old(self).is_sorting && old(self).source_dir is Some),
            old(self).is_sorting ==> *final(self) == *old(self),
            !old(self).is_sorting && old(self).source_dir is None ==> {
                &&& final(self).status_message@ == "Select a sorting folder first"@
                &&& *final(self) == (SortingState {
                    status_message: final(self).status_message,
                    ..*old(self)
                })
            },
            config matches Some(c) ==> {
                &&& old(self).source_dir matches Some(dir) && c.source_dir@ == dir@
                &&& c.mode == (if old(self).copy_files {
                    NumberedSortMode::Copy
                } else {
                    NumberedSortMode::Move
                })
                &&& final(self).is_sorting
                &&& final(self).progress.bits == 0
                &&& final(self).results@.len() == 0
                &&& final(self).summary is None
                &&& final(self).status_message@ == "Sorting numbered files..."@
                &&& final(self).source_dir == old(self).source_dir
                &&& final(self).copy_files == old(self).copy_files
            },
    {
        if self.is_sorting {
            return None;
        }
        let source_dir = match &self.source_dir {
            Some(dir) => dir.clone(),
            None => {
                self.status_message = text::owned("Select a sorting folder first");
                return None;
            },
        };
        self.is_sorting = true;
        self.progress = Score { bits: 0 };
        self.results = Vec::new();
        self.summary = None;
        self.status_message = text::owned("Sorting numbered files...");
        let mode = if self.copy_files {
            NumberedSortMode::Copy
        } else {
            NumberedSortMode::Move
        };
        Some(NumberedSortConfig { source_dir, mode })
    }

    /// The sorting went on: `share` is how much of it is done, from nothing to all.
    pub fn report_progress(&mut self, share: Score)
        ensures
            *final(self) == (SortingState {
                progress: if old(self).is_sorting {
                    share
                } else {
                    old(self).progress
                },
                ..*old(self)
            }),
    {
        if self.is_sorting {
            self.progress = share;
        }
    }

    /// The sorting is done.
    pub fn finish_sorting(
        &mut self,
        summary: NumberedSortSummary,
        results: Vec<NumberedSortResult>,
    )
        ensures
            !final(self).is_sorting,
            final(self).progress.bits == 0x3f80_0000,
            final(self).status_message@ == sorted_message(summary),
            final(self).summary == Some(summary),
            final(self).results == results,
            final(self).source_dir == old(self).source_dir,
            final(self).copy_files == old(self).copy_files,
    {
        let mut message = text::owned("Sorting complete - ");
        text::push_decimal(&mut message, summary.sorted as u64);
        text::push_text(&mut message, " sorted, ");
        text::push_decimal(&mut message, summary.failed as u64);
        text::push_text(&mut message, " failed, ");
        text::push_decimal(&mut message, summary.skipped as u64);
        text::push_text(&mut message, " skipped, ");
        text::push_decimal(&mut message, summary.folders_created as u64);
        text::push_text(&mut message, " folders created");
        self.is_sorting = false;
        self.progress = Score { bits: 0x3f80_0000 };
        self.status_message = message;
        self.summary = Some(summary);
        self.results = results;
    }

    fn failure_lines(&self) -> (lines: Vec<String>)
        ensures
            text::texts(lines@) == sorting_failures(self.results@),
    {
        let ghost unsuccessful = |r: NumberedSortResult| !r.success;
        let mut lines: Vec<String> = Vec::new();
        let mut i: usize = 0;
        proof {
            reveal(Seq::filter);
            assert(self.results@.take(0) =~= Seq::<NumberedSortResult>::empty());
            assert(text::texts(lines@) =~= sorting_failures(self.results@.take(0)));
        }
        while i < self.results.len()
            invariant
                i <= self.results@.len(),
                unsuccessful == (|r: NumberedSortResult| !r.success),
                text::texts(lines@) == sorting_failures(self.results@.take(i as int)),
            decreases self.results@.len() - i,
        {
            let result = &self.results[i];
            let ghost before = lines@;
            let ghost failed = self.results@.take(i as int).filter(unsuccessful);
            let full = lines.len() >= SORTING_FAILURES_SHOWN;
            assert(text::texts(before).len() == lines@.len());
            if !result.success && !full {
                lines.push(sorting_failure_line(result));
            }
            proof {
                reveal(Seq::filter);
                let next = self.results@.take(i + 1);
                assert(next.drop_last() =~= self.results@.take(i as int));
                assert(next.last() == *result);
                let now = next.filter(unsuccessful);
                assert(now == (if unsuccessful(*result) {
                    failed.push(*result)
                } else {
                    failed
                }));
                assert(text::texts(lines@) =~= sorting_failures(next)) by {
                    assert forall|k: int| 0 <= k < lines@.len() implies lines@[k]@
                        == sorting_failures(next)[k] by {
                        if k < before.len() {
                            assert(lines@[k]@ == text::texts(before)[k]);
                            assert(now[k] == failed[k]);
                        }
                    }
                }
            }
            i += 1;
        }
        assert(self.results@.take(self.results@.len() as int) =~= self.results@);
        lines
    }

    /// What the window shows of the sorting: the folder, what can be started, what the
    /// last run came to, and the first files that failed.
    pub fn render_sorting(&self) -> (view: SortingView)
        ensures
            view.folder_label@ == folder_label(self.source_dir),
            view.can_start == !self.is_sorting,
            view.start_label@ == (if self.is_sorting {
                "Sorting..."@
            } else if self.copy_files {
                "Copy Into Number Folders"@
            } else {
                "Move Into Number Folders"@
            }),
            text::optional_text(view.summary) == (match self.summary {
                Some(summary) => Some(summary_line(summary)),
                None => None,
            }),
            text::texts(view.failures@) == sorting_failures(self.results@),
    {
        let summary = match &self.summary {
            Some(summary) => {
                let mut line = text::decimal_text(summary.discovered as u64);
                text::push_text(&mut line, " discovered, ");
                text::push_decimal(&mut line, summary.sorted as u64);
                text::push_text(&mut line, " sorted, ");
                text::push_decimal(&mut line, summary.failed as u64);
                text::push_text(&mut line, " failed, ");
                text::push_decimal(&mut line, summary.skipped as u64);
                text::push_text(&mut line, " skipped, ");
                text::push_decimal(&mut line, summary.folders_created as u64);
                text::push_text(&mut line, " folders created");
                Some(line)
            },
            None => None,
        };
        let start_label = if self.is_sorting {
            text::owned("Sorting...")
        } else if self.copy_files {
            text::owned("Copy Into Number Folders")
        } else {
            text::owned("Move Into Number Folders")
        };
        SortingView {
            folder_label: label_of_folder(&self.source_dir),
            start_label,
            can_start: !self.is_sorting,
            summary,
            failures: self.failure_lines(),
        }
    }
}

/// The batch as it stands.
#[derive(Debug)]
pub struct BatchRun {
    pub is_processing: bool,
    pub progress: Score,
    pub status_message: String,
    pub results: Vec<ProcessResult>,
}

/// The main window.
#[derive(Debug)]
pub struct AppState {
    pub mode: AppMode,
    pub image_paths: Vec<FilePath>,
    pub image_names: Vec<String>,
    pub selected_index: Option<usize>,
    pub preview_version: usize,
    pub output_dir: Option<FilePath>,
    pub settings: BatchSettings,
    pub run: BatchRun,
    pub sorting: SortingState,
}

/// The names that images are listed by.
pub open spec fn listed_names(images: Seq<Seq<u8>>) -> Seq<Seq<char>> {
    Seq::new(images.len(), |i: int| name_or(images[i], "???"@))
}

/// Keeps the image files.
fn keep_images(found: Vec<FilePath>) -> (images: Vec<FilePath>)
    ensures
        paths::paths_view(images@) == paths::paths_view(found@).filter(
            |p: Seq<u8>| image_loader::is_image(p),
        ),
{
    let ghost all = paths::paths_view(found@);
    let ghost wanted = |p: Seq<u8>| image_loader::is_image(p);
    let mut images: Vec<FilePath> = Vec::new();
    let mut i: usize = 0;
    proof {
        reveal(Seq::filter);
        assert(all.take(0) =~= Seq::<Seq<u8>>::empty());
        assert(paths::paths_view(images@) =~= all.take(0).filter(wanted));
    }
    while i < found.len()
        invariant
            i <= found@.len(),
            all == paths::paths_view(found@),
            wanted == (|p: Seq<u8>| image_loader::is_image(p)),
            paths::paths_view(images@) == all.take(i as int).filter(wanted),
        decreases found@.len() - i,
    {
        let is_image = image_loader::is_supported_image(&found[i]);
        let ghost before = images@;
        if is_image {
            images.push(found[i].clone());
        }
        proof {
            reveal(Seq::filter);
            let next = all.take(i + 1);
            assert(next.drop_last() =~= all.take(i as int));
            assert(next.last() == found@[i as int]@);
            assert(wanted(next.last()) == is_image);
            if is_image {
                assert(paths::paths_view(images@) =~= paths::paths_view(before).push(next.last()));
            }
        }
        i += 1;
    }
    assert(all.take(all.len() as int) =~= all);
    images
}

fn name_all(images: &Vec<FilePath>) -> (names: Vec<String>)
    ensures
        text::texts(names@) == listed_names(paths::paths_view(images@)),
{
    let mut names: Vec<String> = Vec::new();
    let mut i: usize = 0;
    while i < images.len()
        invariant
            i <= images@.len(),
            names@.len() == i,
            forall|j: int| 0 <= j < i ==> (#[trigger] names@[j])@ == name_or(images@[j]@, "???"@),
        decreases images@.len() - i,
    {
        names.push(text_name_or(&images[i], "???"));
        i += 1;
    }
    assert(text::texts(names@) =~= listed_names(paths::paths_view(images@)));
    names
}

/// A preview that is to be made.
#[derive(Debug)]
pub struct PreviewRequest {
    pub version: usize,
    pub index: usize,
    pub path: FilePath,
    pub config: BatchConfig,
}

/// What becomes of a preview that was made: it is shown, or the window shows none
/// any more and goes on with the next image where there is one, or it came too late.
#[derive(Clone, Copy, Debug, PartialEq, Eq, Structural)]
pub enum PreviewOutcome {
    Show,
    Clear { next: bool },
    Outdated,
}

/// How a picture that could not be exported is listed.
pub open spec fn batch_failure(result: ProcessResult) -> Seq<char> {
    "❌ "@ + name_or(result.source@, "?"@) + ": "@ + text_or(result.error, "unknown"@)
}

/// How many failures of a batch are listed.
pub const BATCH_FAILURES_SHOWN: usize = 5;

/// The first lines about the pictures that could not be exported.
pub open spec fn batch_failures(results: Seq<ProcessResult>) -> Seq<Seq<char>> {
    let failed = results.filter(|r: ProcessResult| !r.success);
    Seq::new(
        if failed.len() < BATCH_FAILURES_SHOWN {
            failed.len()
        } else {
            BATCH_FAILURES_SHOWN as nat
        },
        |i: int| batch_failure(failed[i]),
    )
}

/// How many pictures were exported.
pub open spec fn successes(results: Seq<ProcessResult>) -> nat {
    results.filter(|r: ProcessResult| r.success).len()
}

/// What is said when a batch is done.
pub open spec fn done_message(success: nat, total: nat) -> Seq<char> {
    "Done - "@ + text::decimal(success) + " succeeded, "@ + text::decimal((total - success) as nat)
        + " failed out of "@ + text::decimal(total) + " total"@
}

fn count_successes(results: &Vec<ProcessResult>) -> (count: usize)
    ensures
        count == successes(results@),
        count <= results@.len(),
{
    let ghost wanted = |r: ProcessResult| r.success;
    let mut count: usize = 0;
    let mut i: usize = 0;
    proof {
        reveal(Seq::filter);
        assert(results@.take(0) =~= Seq::<ProcessResult>::empty());
    }
    while i < results.len()
        invariant
            i <= results@.len(),
            count <= i,
            wanted == (|r: ProcessResult| r.success),
            count == results@.take(i as int).filter(wanted).len(),
        decreases results@.len() - i,
    {
        proof {
            reveal(Seq::filter);
            let next = results@.take(i + 1);
            assert(next.drop_last() =~= results@.take(i as int));
            assert(next.last() == results@[i as int]);
        }
        if results[i].success {
            count += 1;
        }
        i += 1;
    }
    assert(results@.take(results@.len() as int) =~= results@);
    count
}

/// Every picture of a batch either was exported or failed.
pub proof fn results_are_successes_or_failures(results: Seq<ProcessResult>)
    ensures
        successes(results) + results.filter(|r: ProcessResult| !r.success).len() == results.len(),
    decreases results.len(),
{
    reveal(Seq::filter);
    if results.len() > 0 {
        results_are_successes_or_failures(results.drop_last());
    }
}

/// The result of a batch as it is shown.
#[derive(Debug)]
pub enum ResultRows {
    Nothing,
    AllWell,
    Failures(Vec<String>),
}

/// What the window shows of the choices for a batch. Rows that are missing belong to
/// something that was not asked for.
#[derive(Debug)]
pub struct SettingsView {
    pub quality_title: String,
    pub font_size_title: Option<Note>,
    pub text_margin_title: Option<String>,
    pub poster_margin_title: Option<String>,
    pub watermark_label: Option<String>,
    pub watermark_margin_title: Option<String>,
    pub watermark_size_title: Option<Note>,
    pub watermark_opacity_title: Option<Note>,
    pub output_label: String,
    pub process_label: String,
    pub can_process: bool,
    pub results: ResultRows,
}

/// The title of a slider for a count of pixels.
pub open spec fn pixels_title(what: Seq<char>, n: u32) -> Seq<char> {
    what + text::decimal(n as nat) + " px"@
}

fn title_of_pixels(what: &str, n: u32) -> (title: String)
    ensures
        title@ == pixels_title(what@, n),
{
    let mut title = text::owned(what);
    text::push_decimal(&mut title, n as u64);
    text::push_text(&mut title, " px");
    title
}

fn rounded_title(what: &str, score: Score, unit: &str) -> (title: Note)
    ensures
        title@ == seq![note::words(what@), note::fixed(score, 0), note::words(unit@)],
{
    let mut title = Note::of_text(what);
    title.write(score, 0);
    title.say(unit);
    assert(title@ =~= seq![note::words(what@), note::fixed(score, 0), note::words(unit@)]);
    title
}

impl AppState {
    /// The images of the list.
    pub open spec fn images(&self) -> Seq<Seq<u8>> {
        paths::paths_view(self.image_paths@)
    }

    /// The image that is selected is one of the list, and each image has its name.
    pub open spec fn wf(&self) -> bool {
        &&& self.selected_index matches Some(i) ==> i < self.image_paths@.len()
        &&& text::texts(self.image_names@) == listed_names(self.images())
    }

    /// An empty window.
    pub fn new() -> (state: AppState)
        ensures
            state.wf(),
            state.mode == AppMode::BatchProcessing,
            state.image_paths@.len() == 0,
            state.selected_index is None,
            state.preview_version == 0,
            state.output_dir is None,
            state.settings.is_initial(),
            !state.run.is_processing,
            state.run.progress.bits == 0,
            state.run.status_message@ == "Ready - Open a folder to begin"@,
            state.run.results@.len() == 0,
            state.sorting.is_initial(),
    {
        let state = AppState {
            mode: AppMode::BatchProcessing,
            image_paths: Vec::new(),
            image_names: Vec::new(),
            selected_index: None,
            preview_version: 0,
            output_dir: None,
            settings: BatchSettings::new(),
            run: BatchRun {
                is_processing: false,
                progress: Score { bits: 0 },
                status_message: text::owned("Ready - Open a folder to begin"),
                results: Vec::new(),
            },
            sorting: SortingState::new(),
        };
        assert(text::texts(state.image_names@) =~= listed_names(state.images()));
        state
    }

    /// Another tab was chosen.
    pub fn set_mode(&mut self, mode: AppMode)
        ensures
            *final(self) == (AppState { mode, ..*old(self) }),
    {
        self.mode = mode;
    }

    /// A folder was opened: its images are listed in order, and the first one is
    /// selected. Returns whether there is something to preview.
    pub fn open_folder(&mut self, found: Vec<FilePath>) -> (shows: bool)
        requires
            old(self).wf(),
        ensures
            final(self).wf(),
            paths::paths_sorted(final(self).images()),
            final(self).images().to_multiset() == paths::paths_view(found@).filter(
                |p: Seq<u8>| image_loader::is_image(p),
            ).to_multiset(),
            final(self).selected_index == (if final(self).images().len() > 0 {
                Some(0usize)
            } else {
                None
            }),
            shows == (final(self).images().len() > 0),
            final(self).run.status_message@ == "Loaded "@ + text::decimal(
                final(self).images().len(),
            ) + " images"@,
            final(self).run.results@.len() == 0,
            final(self).run.is_processing == old(self).run.is_processing,
            final(self).run.progress == old(self).run.progress,
            final(self).mode == old(self).mode,
            final(self).preview_version == old(self).preview_version,
            final(self).output_dir == old(self).output_dir,
            final(self).settings == old(self).settings,
            final(self).sorting == old(self).sorting,
    {
        let mut images = keep_images(found);
        paths::sort_paths(&mut images);
        let names = name_all(&images);
        let mut message = text::owned("Loaded ");
        text::push_decimal(&mut message, images.len() as u64);
        text::push_text(&mut message, " images");
        let shows = images.len() > 0;
        self.run.status_message = message;
        self.image_paths = images;
        self.image_names = names;
        self.selected_index = if shows {
            Some(0)
        } else {
            None
        };
        self.run.results = Vec::new();
        shows
    }

    /// An image of the list was selected.
    pub fn select_image(&mut self, index: usize)
        requires
            old(self).wf(),
            index < old(self).image_paths@.len(),
        ensures
            final(self).wf(),
            *final(self) == (AppState { selected_index: Some(index), ..*old(self) }),
    {
        self.selected_index = Some(index);
    }

    /// The folder to export to was chosen.
    pub fn choose_output_dir(&mut self, dir: FilePath)
        requires
            old(self).wf(),
        ensures
            final(self).wf(),
            final(self).run.status_message@ == "Output: "@ + paths::shown(dir@),
            *final(self) == (AppState {
                output_dir: Some(dir),
                run: BatchRun {
                    status_message: final(self).run.status_message,
                    ..old(self).run
                },
                ..*old(self)
            }),
    {
        let mut message = text::owned("Output: ");
        let shown = dir.display_text();
        text::push_text(&mut message, shown.as_str());
        self.run.status_message = message;
        self.output_dir = Some(dir);
    }

    /// Why a batch cannot be started, the first reason first.
    pub open spec fn batch_fault(&self) -> Option<Seq<char>> {
        if self.image_paths@.len() == 0 {
            Some("No images loaded"@)
        } else if self.output_dir is None {
            Some("Select an output folder first"@)
        } else if self.settings.watermark_enabled && self.settings.watermark_image_path is None {
            Some("Select a watermark image first"@)
        } else {
            None
        }
    }

    /// Starts a batch, unless something is missing. Returns what is to be exported, and
    /// how.
    pub fn start_batch(&mut self) -> (batch: Option<(Vec<FilePath>, BatchConfig)>)
        requires
            old(self).wf(),
        ensures
            final(self).wf(),
            batch is Some == old(self).batch_fault() is None,
            match old(self).batch_fault() {
                Some(fault) => {
                    &&& final(self).run.status_message@ == fault
                    &&& *final(self) == (AppState {
                        run: BatchRun {
                            status_message: final(self).run.status_message,
                            ..old(self).run
                        },
                        ..*old(self)
                    })
                },
                None => {
                    &&& final(self).run.is_processing
                    &&& final(self).run.progress.bits == 0
                    &&& final(self).run.results@.len() == 0
                    &&& final(self).run.status_message@ == "Processing..."@
                    &&& *final(self) == (AppState { run: final(self).run, ..*old(self) })
                },
            },
            batch matches Some(b) ==> {
                &&& paths::paths_view(b.0@) == old(self).images()
                &&& old(self).output_dir matches Some(dir) && old(self).settings.is_config(
                    b.1,
                    dir@,
                )
            },
    {
        if self.image_paths.len() == 0 {
            self.run.status_message = text::owned("No images loaded");
            return None;
        }
        let output_dir = match &self.output_dir {
            Some(dir) => dir.clone(),
            None => {
                self.run.status_message = text::owned("Select an output folder first");
                return None;
            },
        };
        if self.settings.watermark_enabled && self.settings.watermark_image_path.is_none() {
            self.run.status_message = text::owned("Select a watermark image first");
            return None;
        }
        self.run.is_processing = true;
        self.run.progress = Score { bits: 0 };
        self.run.results = Vec::new();
        self.run.status_message = text::owned("Processing...");
        let images = copy_paths(&self.image_paths);
        let config = self.settings.build_config(&output_dir);
        Some((images, config))
    }

    /// A batch is done.
    pub fn finish_batch(&mut self, results: Vec<ProcessResult>)
        requires
            old(self).wf(),
        ensures
            final(self).wf(),
            !final(self).run.is_processing,
            final(self).run.progress.bits == 0x3f80_0000,
            final(self).run.status_message@ == done_message(
                successes(results@),
                results@.len(),
            ),
            final(self).run.results == results,
            *final(self) == (AppState { run: final(self).run, ..*old(self) }),
    {
        let total: usize = results.len();
        let success: usize = count_successes(&results);
        let mut message = text::owned("Done - ");
        text::push_decimal(&mut message, success as u64);
        text::push_text(&mut message, " succeeded, ");
        text::push_decimal(&mut message, (total - success) as u64);
        text::push_text(&mut message, " failed out of ");
        text::push_decimal(&mut message, total as u64);
        text::push_text(&mut message, " total");
        self.run.is_processing = false;
        self.run.progress = Score { bits: 0x3f80_0000 };
        self.run.status_message = message;
        self.run.results = results;
    }

    /// Asks for a new preview of the selected image. Previews that were asked for before
    /// are outdated from then on.
    pub fn schedule_preview_update(&mut self) -> (request: Option<PreviewRequest>)
        requires
            old(self).wf(),
        ensures
            final(self).wf(),
            request is Some == old(self).selected_index is Some,
            match old(self).selected_index {
                Some(index) => {
                    let version = if old(self).preview_version == usize::MAX {
                        0
                    } else {
                        (old(self).preview_version + 1) as usize
                    };
                    &&& *final(self) == (AppState { preview_version: version, ..*old(self) })
                    &&& request matches Some(r) && {
                        &&& r.version == version
                        &&& r.index == index
                        &&& r.path@ == old(self).images()[index as int]
                        &&& old(self).settings.is_config(
                            r.config,
                            match old(self).output_dir {
                                Some(dir) => dir@,
                                None => Seq::empty(),
                            },
                        )
                    }
                },
                None => *final(self) == *old(self),
            },
    {
        let index: usize = match self.selected_index {
            Some(index) => index,
            None => {
                return None;
            },
        };
        self.preview_version = if self.preview_version == usize::MAX {
            0
        } else {
            self.preview_version + 1
        };
        let output_dir = match &self.output_dir {
            Some(dir) => dir.clone(),
            None => FilePath { written: Vec::new() },
        };
        assert(self.output_dir is None ==> output_dir@ =~= Seq::<u8>::empty());
        Some(
            PreviewRequest {
                version: self.preview_version,
                index,
                path: self.image_paths[index].clone(),
                config: self.settings.build_config(&output_dir),
            },
        )
    }

    /// Whether a preview is still the one that was asked for last.
    pub fn is_current(&self, version: usize) -> (current: bool)
        ensures
            current == (version == self.preview_version),
    {
        version == self.preview_version
    }

    /// A preview was made, or could not be. One that is outdated is dropped. Where the
    /// image could not be read, the next one is selected, if the image is still the one
    /// that is selected and there is a next one.
    pub fn finish_preview(&mut self, request: &PreviewRequest, made: bool) -> (outcome:
        PreviewOutcome)
        requires
            old(self).wf(),
        ensures
            final(self).wf(),
            outcome == (if request.version != old(self).preview_version {
                PreviewOutcome::Outdated
            } else if made {
                PreviewOutcome::Show
            } else {
                PreviewOutcome::Clear {
                    next: old(self).selected_index == Some(request.index) && request.index + 1
                        < old(self).image_paths@.len(),
                }
            }),
            !(outcome is Clear) ==> *final(self) == *old(self),
            outcome matches PreviewOutcome::Clear { next } ==> {
                &&& final(self).run.status_message@ == "Skipping unreadable image: "@ + name_or(
                    request.path@,
                    "image"@,
                )
                &&& final(self).selected_index == (if next {
                    Some((request.index + 1) as usize)
                } else {
                    old(self).selected_index
                })
                &&& *final(self) == (AppState {
                    selected_index: final(self).selected_index,
                    run: BatchRun {
                        status_message: final(self).run.status_message,
                        ..old(self).run
                    },
                    ..*old(self)
                })
            },
    {
        if request.version != self.preview_version {
            return PreviewOutcome::Outdated;
        }
        if made {
            return PreviewOutcome::Show;
        }
        let mut message = text::owned("Skipping unreadable image: ");
        let name = text_name_or(&request.path, "image");
        text::push_text(&mut message, name.as_str());
        self.run.status_message = message;
        let selected = match self.selected_index {
            Some(index) => index == request.index,
            None => false,
        };
        let len: usize = self.image_paths.len();
        let next = selected && request.index < len && len - request.index > 1;
        if next {
            self.selected_index = Some(request.index + 1);
        }
        PreviewOutcome::Clear { next }
    }

    /// The images to get ready while one is previewed: the two before it and the two
    /// after it, the nearest ones first.
    pub fn preload_adjacent(&self) -> (adjacent: Vec<FilePath>)
        requires
            self.wf(),
        ensures
            paths::paths_view(adjacent@) == (match self.selected_index {
                Some(index) => numbering_state::at_offsets(
                    self.images(),
                    seq![index - 1, index + 1, index - 2, index + 2],
                ),
                None => Seq::empty(),
            }),
    {
        let mut adjacent: Vec<FilePath> = Vec::new();
        let index: usize = match self.selected_index {
            Some(index) => index,
            None => {
                assert(paths::paths_view(adjacent@) =~= Seq::<Seq<u8>>::empty());
                return adjacent;
            },
        };
        let len: usize = self.image_paths.len();
        if index >= 1 {
            adjacent.push(self.image_paths[index - 1].clone());
        }
        if len - index > 1 {
            adjacent.push(self.image_paths[index + 1].clone());
        }
        if index >= 2 {
            adjacent.push(self.image_paths[index - 2].clone());
        }
        if len - index > 2 {
            adjacent.push(self.image_paths[index + 2].clone());
        }
        proof {
            reveal_with_fuel(numbering_state::at_offsets, 5);
            let i = index as int;
            assert(seq![i - 1, i + 1, i - 2, i + 2].drop_last() =~= seq![i - 1, i + 1, i - 2]);
            assert(seq![i - 1, i + 1, i - 2].drop_last() =~= seq![i - 1, i + 1]);
            assert(seq![i - 1, i + 1].drop_last() =~= seq![i - 1]);
            assert(seq![i - 1].drop_last() =~= Seq::<int>::empty());
            assert(paths::paths_view(adjacent@) =~= numbering_state::at_offsets(
                self.images(),
                seq![i - 1, i + 1, i - 2, i + 2],
            ));
        }
        adjacent
    }

    fn failure_lines(&self) -> (lines: Vec<String>)
        ensures
            text::texts(lines@) == batch_failures(self.run.results@),
    {
        let ghost unsuccessful = |r: ProcessResult| !r.success;
        let results = &self.run.results;
        let mut lines: Vec<String> = Vec::new();
        let mut i: usize = 0;
        proof {
            reveal(Seq::filter);
            assert(results@.take(0) =~= Seq::<ProcessResult>::empty());
            assert(text::texts(lines@) =~= batch_failures(results@.take(0)));
        }
        while i < results.len()
            invariant
                i <= results@.len(),
                unsuccessful == (|r: ProcessResult| !r.success),
                text::texts(lines@) == batch_failures(results@.take(i as int)),
            decreases results@.len() - i,
        {
            let result = &results[i];
            let ghost before = lines@;
            let ghost failed = results@.take(i as int).filter(unsuccessful);
            let full = lines.len() >= BATCH_FAILURES_SHOWN;
            assert(text::texts(before).len() == lines@.len());
            if !result.success && !full {
                let mut line = text::owned("❌ ");
                let name = text_name_or(&result.source, "?");
                text::push_text(&mut line, name.as_str());
                text::push_text(&mut line, ": ");
                push_text_or(&mut line, &result.error, "unknown");
                lines.push(line);
            }
            proof {
                reveal(Seq::filter);
                let next = results@.take(i + 1);
                assert(next.drop_last() =~= results@.take(i as int));
                assert(next.last() == *result);
                let now = next.filter(unsuccessful);
                assert(now == (if unsuccessful(*result) {
                    failed.push(*result)
                } else {
                    failed
                }));
                assert(text::texts(lines@) =~= batch_failures(next)) by {
                    assert forall|k: int| 0 <= k < lines@.len() implies lines@[k]@
                        == batch_failures(next)[k] by {
                        if k < before.len() {
                            assert(lines@[k]@ == text::texts(before)[k]);
                            assert(now[k] == failed[k]);
                        }
                    }
                }
            }
            i += 1;
        }
        assert(results@.take(results@.len() as int) =~= results@);
        lines
    }

    fn result_rows(&self) -> (rows: ResultRows)
        ensures
            match rows {
                ResultRows::Nothing => self.run.results@.len() == 0,
                ResultRows::AllWell => self.run.results@.len() > 0 && batch_failures(
                    self.run.results@,
                ).len() == 0,
                ResultRows::Failures(lines) => self.run.results@.len() > 0 && lines@.len() > 0
                    && text::texts(lines@) == batch_failures(self.run.results@),
            },
    {
        if self.run.results.len() == 0 {
            return ResultRows::Nothing;
        }
        let lines = self.failure_lines();
        assert(text::texts(lines@).len() == lines@.len());
        if lines.len() == 0 {
            ResultRows::AllWell
        } else {
            ResultRows::Failures(lines)
        }
    }

    /// What the window shows of the choices for a batch, and of the last one. The
    /// opacity is handed in as a percentage.
    pub fn render_settings(&self, opacity_percent: Score) -> (view: SettingsView)
        ensures
            view.quality_title@ == "JPEG Quality: "@ + text::decimal(self.settings.quality as nat)
                + "%"@,
            view.font_size_title is Some == self.settings.text_enabled,
            view.font_size_title matches Some(title) ==> title@ == seq![
                note::words("Font Size: "@),
                note::fixed(self.settings.text_font_size, 0),
                note::words("px"@),
            ],
            text::optional_text(view.text_margin_title) == (if self.settings.text_enabled {
                Some(pixels_title("Edge Margin: "@, self.settings.text_edge_margin))
            } else {
                None
            }),
            text::optional_text(view.poster_margin_title) == (
            if self.settings.poster_margin_enabled {
                Some(pixels_title("Margin: "@, self.settings.poster_margin_px))
            } else {
                None
            }),
            text::optional_text(view.watermark_label) == (if self.settings.watermark_enabled {
                Some(
                    match self.settings.watermark_image_path {
                        Some(path) => name_or(path@, "Not selected"@),
                        None => "Not selected"@,
                    },
                )
            } else {
                None
            }),
            text::optional_text(view.watermark_margin_title) == (
            if self.settings.watermark_enabled {
                Some(pixels_title("Edge Margin: "@, self.settings.watermark_edge_margin))
            } else {
                None
            }),
            view.watermark_size_title is Some == self.settings.watermark_enabled,
            view.watermark_size_title matches Some(title) ==> title@ == seq![
                note::words("Size: "@),
                note::fixed(self.settings.watermark_scale_percent, 0),
                note::words("%"@),
            ],
            view.watermark_opacity_title is Some == self.settings.watermark_enabled,
            view.watermark_opacity_title matches Some(title) ==> title@ == seq![
                note::words("Opacity: "@),
                note::fixed(opacity_percent, 0),
                note::words("%"@),
            ],
            view.output_label@ == folder_label(self.output_dir),
            view.can_process == !self.run.is_processing,
            view.process_label@ == (if self.run.is_processing {
                "Processing..."@
            } else {
                "Process All"@
            }),
            match view.results {
                ResultRows::Nothing => self.run.results@.len() == 0,
                ResultRows::AllWell => self.run.results@.len() > 0 && batch_failures(
                    self.run.results@,
                ).len() == 0,
                ResultRows::Failures(lines) => self.run.results@.len() > 0 && lines@.len() > 0
                    && text::texts(lines@) == batch_failures(self.run.results@),
            },
    {
        let settings = &self.settings;
        let mut quality_title = text::owned("JPEG Quality: ");
        text::push_decimal(&mut quality_title, settings.quality as u64);
        text::push_text(&mut quality_title, "%");
        let (font_size_title, text_margin_title) = if settings.text_enabled {
            (
                Some(rounded_title("Font Size: ", settings.text_font_size, "px")),
                Some(title_of_pixels("Edge Margin: ", settings.text_edge_margin)),
            )
        } else {
            (None, None)
        };
        let poster_margin_title = if settings.poster_margin_enabled {
            Some(title_of_pixels("Margin: ", settings.poster_margin_px))
        } else {
            None
        };
        let watermark_label = if settings.watermark_enabled {
            match &settings.watermark_image_path {
                Some(path) => Some(text_name_or(path, "Not selected")),
                None => Some(text::owned("Not selected")),
            }
        } else {
            None
        };
        let watermark_margin_title = if settings.watermark_enabled {
            Some(title_of_pixels("Edge Margin: ", settings.watermark_edge_margin))
        } else {
            None
        };
        let watermark_size_title = if settings.watermark_enabled {
            Some(rounded_title("Size: ", settings.watermark_scale_percent, "%"))
        } else {
            None
        };
        let watermark_opacity_title = if settings.watermark_enabled {
            Some(rounded_title("Opacity: ", opacity_percent, "%"))
        } else {
            None
        };
        let process_label = if self.run.is_processing {
            text::owned("Processing...")
        } else {
            text::owned("Process All")
        };
        SettingsView {
            quality_title,
            font_size_title,
            text_margin_title,
            poster_margin_title,
            watermark_label,
            watermark_margin_title,
            watermark_size_title,
            watermark_opacity_title,
            output_label: label_of_folder(&self.output_dir),
            process_label,
            can_process: !self.run.is_processing,
            results: self.result_rows(),
        }
    }
}

/// What frames the window: its tabs, of which one is active, and the status at its
/// foot, where it has one.
#[derive(Debug)]
pub struct FrameView {
    pub tabs: Vec<SelectOption<AppMode>>,
    pub active: AppMode,
    pub status: Option<String>,
    pub shows_progress: bool,
}

impl AppState {
    /// What frames the window. The status and the progress of the batch belong to the
    /// tab for batches.
    pub fn render(&self) -> (view: FrameView)
        ensures
            offers(
                view.tabs@,
                seq!["Batch Processing"@, "Numbering"@, "Sorting"@],
                seq![AppMode::BatchProcessing, AppMode::Numbering, AppMode::Sorting],
            ),
            view.active == self.mode,
            text::optional_text(view.status) == (if self.mode == AppMode::BatchProcessing {
                Some(self.run.status_message@)
            } else {
                None
            }),
            view.shows_progress == (self.mode == AppMode::BatchProcessing
                && self.run.is_processing),
    {
        let mut tabs: Vec<SelectOption<AppMode>> = Vec::new();
        tabs.push(
            SelectOption { label: text::owned("Batch Processing"), value: AppMode::BatchProcessing },
        );
        tabs.push(SelectOption { label: text::owned("Numbering"), value: AppMode::Numbering });
        tabs.push(SelectOption { label: text::owned("Sorting"), value: AppMode::Sorting });
        let is_batch = match self.mode {
            AppMode::BatchProcessing => true,
            _ => false,
        };
        let status = if is_batch {
            Some(self.run.status_message.clone())
        } else {
            None
        };
        FrameView {
            tabs,
            active: self.mode,
            status,
            shows_progress: is_batch && self.run.is_processing,
        }
    }
}

/// The lists and the sliders start where the choices do.
pub proof fn controls_start_at_the_choices(settings: BatchSettings)
    requires
        settings.is_initial(),
    ensures
        seq![OutputFormat::Jpeg, OutputFormat::Pdf][FORMAT_ROW as int] == settings.output_format,
        seq![
            Rotation::NoTurn,
            Rotation::Cw90,
            Rotation::Cw180,
            Rotation::Cw270,
        ][ROTATION_ROW as int] == settings.rotation,
        seq![
            WatermarkRotation::MatchImage,
            WatermarkRotation::Fixed(Rotation::NoTurn),
        ][WATERMARK_ROTATION_ROW as int] == settings.watermark_rotation,
        seq![
            TextPosition::TopLeft,
            TextPosition::TopRight,
            TextPosition::BottomLeft,
            TextPosition::BottomRight,
            TextPosition::Center,
        ][POSITION_ROW as int] == settings.text_position,
        seq![
            TextPosition::TopLeft,
            TextPosition::TopRight,
            TextPosition::BottomLeft,
            TextPosition::BottomRight,
            TextPosition::Center,
        ][WATERMARK_POSITION_ROW as int] == settings.watermark_position,
        slider_bits(SliderKind::FontSize).3 == settings.text_font_size.bits,
        slider_bits(SliderKind::WatermarkScale).3 == settings.watermark_scale_percent.bits,
        slider_bits(SliderKind::WatermarkOpacity).3 == settings.watermark_opacity.bits,
{
}

fn copy_paths(paths: &Vec<FilePath>) -> (copy: Vec<FilePath>)
    ensures
        paths::paths_view(copy@) == paths::paths_view(paths@),
{
    let mut copy: Vec<FilePath> = Vec::new();
    let mut i: usize = 0;
    while i < paths.len()
        invariant
            i <= paths@.len(),
            copy@.len() == i,
            forall|j: int| 0 <= j < i ==> (#[trigger] copy@[j])@ == paths@[j]@,
        decreases paths@.len() - i,
    {
        copy.push(paths[i].clone());
        i += 1;
    }
    assert(paths::paths_view(copy@) =~= paths::paths_view(paths@));
    copy
}

/// The options that are offered stand in their order, each with its own words.
pub proof fn options_stand_in_their_order<V>(
    options: Seq<SelectOption<V>>,
    labels: Seq<Seq<char>>,
    values: Seq<V>,
    i: int,
)
    requires
        offers(options, labels, values),
        0 <= i < labels.len(),
    ensures
        options.len() == labels.len() == values.len(),
        options[i].label@ == labels[i],
        options[i].value == values[i],
{
}

/// Every slider starts inside its range, which it goes through in steps above zero: the
/// quality from 1 to 100, starting at 70, the size of text from 8 to 200 at 24, margins from 0
/// to 200 at 10, a poster's margin to 400 at 40, the scale of a watermark from 5 to 300 at 100,
/// all in steps of one, and its opacity from 0.05 to 1 in steps of 0.05, at 0.25.
pub proof fn sliders_start_in_their_range(kind: SliderKind)
    ensures
        ({
            let bits = slider_bits(kind);
            let min = Score { bits: bits.0 };
            let max = Score { bits: bits.1 };
            let step = Score { bits: bits.2 };
            let start = Score { bits: bits.3 };
            &&& min.lt(max)
            &&& start.ge(min)
            &&& max.ge(start)
            &&& (Score { bits: 0 }).lt(step)
            &&& kind != SliderKind::WatermarkOpacity ==> step.bits == 0x3f80_0000
        }),
        slider_bits(SliderKind::Quality) == (
            0x3f80_0000u32,
            0x42c8_0000u32,
            0x3f80_0000u32,
            0x428c_0000u32,
        ),
        slider_bits(SliderKind::FontSize) == (
            0x4100_0000u32,
            0x4348_0000u32,
            0x3f80_0000u32,
            0x41c0_0000u32,
        ),
        slider_bits(SliderKind::TextMargin) == (0u32, 0x4348_0000u32, 0x3f80_0000u32, 0x4120_0000u32),
        slider_bits(SliderKind::PosterMargin) == (
            0u32,
            0x43c8_0000u32,
            0x3f80_0000u32,
            0x4220_0000u32,
        ),
        slider_bits(SliderKind::WatermarkMargin) == slider_bits(SliderKind::TextMargin),
        slider_bits(SliderKind::WatermarkScale) == (
            0x40a0_0000u32,
            0x4396_0000u32,
            0x3f80_0000u32,
            0x42c8_0000u32,
        ),
        slider_bits(SliderKind::WatermarkOpacity) == (
            0x3d4c_cccdu32,
            0x3f80_0000u32,
            0x3d4c_cccdu32,
            0x3e80_0000u32,
        ),
{
    let bits = slider_bits(kind);
    let min = Score { bits: bits.0 };
    let max = Score { bits: bits.1 };
    let start = Score { bits: bits.3 };
    crate::score::numbers_compare_by_their_bits(min, max);
    crate::score::numbers_compare_by_their_bits(start, min);
    crate::score::numbers_compare_by_their_bits(max, start);
    crate::score::numbers_compare_by_their_bits(Score { bits: 0 }, Score { bits: bits.2 });
}

/// A choice takes over what was chosen, and leaves all other choices as they are; so the last
/// of two choices of a kind counts. The quality and the format are the only ones that a
/// preview does not show.
pub proof fn choices_change_themselves_alone(settings: BatchSettings, change: SettingChange)
    ensures
        ({
            let after = settings.changed(change);
            &&& match change {
                SettingChange::Quality(v) => after.quality == v,
                SettingChange::Turn(v) => after.rotation == v,
                SettingChange::Format(v) => after.output_format == v,
                SettingChange::TextEnabled(v) => after.text_enabled == v,
                SettingChange::Template(v) => after.text_template == v,
                SettingChange::TextPlace(v) => after.text_position == v,
                SettingChange::FontSize(v) => after.text_font_size == v,
                SettingChange::TextMargin(v) => after.text_edge_margin == v,
                SettingChange::Color(r, g, b) => after.text_color_r == r && after.text_color_g == g
                    && after.text_color_b == b,
                SettingChange::PosterResize(v) => after.poster_resize_33x66 == v,
                SettingChange::PosterMarginEnabled(v) => after.poster_margin_enabled == v,
                SettingChange::PosterMargin(v) => after.poster_margin_px == v,
                SettingChange::WatermarkEnabled(v) => after.watermark_enabled == v,
                SettingChange::WatermarkImage(v) => after.watermark_image_path == Some(v),
                SettingChange::WatermarkPlace(v) => after.watermark_position == v,
                SettingChange::WatermarkMargin(v) => after.watermark_edge_margin == v,
                SettingChange::WatermarkScale(v) => after.watermark_scale_percent == v,
                SettingChange::WatermarkOpacity(v) => after.watermark_opacity == v,
                SettingChange::WatermarkTurn(v) => after.watermark_rotation == v,
            }
            &&& change is Quality || after.quality == settings.quality
            &&& change is Turn || after.rotation == settings.rotation
            &&& change is Format || after.output_format == settings.output_format
            &&& change is TextEnabled || after.text_enabled == settings.text_enabled
            &&& change is Template || after.text_template == settings.text_template
            &&& change is TextPlace || after.text_position == settings.text_position
            &&& change is FontSize || after.text_font_size == settings.text_font_size
            &&& change is TextMargin || after.text_edge_margin == settings.text_edge_margin
            &&& change is Color || (after.text_color_r == settings.text_color_r
                && after.text_color_g == settings.text_color_g && after.text_color_b
                == settings.text_color_b)
            &&& change is PosterResize || after.poster_resize_33x66 == settings.poster_resize_33x66
            &&& change is PosterMarginEnabled || after.poster_margin_enabled
                == settings.poster_margin_enabled
            &&& change is PosterMargin || after.poster_margin_px == settings.poster_margin_px
            &&& change is WatermarkEnabled || after.watermark_enabled == settings.watermark_enabled
            &&& change is WatermarkImage || after.watermark_image_path
                == settings.watermark_image_path
            &&& change is WatermarkPlace || after.watermark_position == settings.watermark_position
            &&& change is WatermarkMargin || after.watermark_edge_margin
                == settings.watermark_edge_margin
            &&& change is WatermarkScale || after.watermark_scale_percent
                == settings.watermark_scale_percent
            &&& change is WatermarkOpacity || after.watermark_opacity == settings.watermark_opacity
            &&& change is WatermarkTurn || after.watermark_rotation == settings.watermark_rotation
        }),
        change.shows() <==> !(change is Quality || change is Format),
{
}

/// What is chosen at first: PDF at a quality of 70, the picture as it is, and neither text nor
/// poster nor watermark; the choices for these stand ready.
pub proof fn nothing_is_done_at_first(settings: BatchSettings, config: BatchConfig, dir: Seq<u8>)
    requires
        settings.is_initial(),
        settings.is_config(config, dir),
    ensures
        shows_picture_alone(config),
        config.quality == 70,
        config.rotation == Rotation::NoTurn,
        config.output_format == OutputFormat::Pdf,
        config.output_dir@ == dir,
        settings.text_template@ == "{filename}"@,
        settings.text_edge_margin == 10,
        settings.poster_margin_px == 40,
        settings.watermark_edge_margin == 10,
        settings.text_color_r == 255 && settings.text_color_g == 255 && settings.text_color_b
            == 255,
        settings.text_position == TextPosition::BottomRight,
        settings.text_font_size.bits == 0x41c0_0000,
        settings.watermark_position == TextPosition::Center,
        settings.watermark_scale_percent.bits == 0x42c8_0000,
        settings.watermark_opacity.bits == 0x3e80_0000,
        settings.watermark_rotation == WatermarkRotation::MatchImage,
        settings.watermark_image_path is None,
{
}

/// A batch is what was chosen for it: text only where it is asked for, and then in the chosen
/// color and opaque; a margin only where margins are asked for; a watermark only where it is
/// asked for and its image is known.
pub proof fn batches_are_as_chosen(settings: BatchSettings, config: BatchConfig, dir: Seq<u8>)
    requires
        settings.is_config(config, dir),
    ensures
        config.quality == settings.quality,
        config.rotation == settings.rotation,
        config.output_format == settings.output_format,
        config.output_dir@ == dir,
        config.text_overlay is Some <==> settings.text_enabled,
        config.text_overlay matches Some(overlay) ==> {
            &&& overlay.text_template@ == settings.text_template@
            &&& overlay.position == settings.text_position
            &&& overlay.font_size == settings.text_font_size
            &&& overlay.margin == settings.text_edge_margin
            &&& overlay.color.r == settings.text_color_r
            &&& overlay.color.g == settings.text_color_g
            &&& overlay.color.b == settings.text_color_b
            &&& overlay.color.a == 255
        },
        config.poster.resize_to_33x66cm == settings.poster_resize_33x66,
        settings.poster_margin_enabled ==> config.poster.margin_px == settings.poster_margin_px,
        !settings.poster_margin_enabled ==> config.poster.margin_px == 0,
        config.watermark is Some <==> settings.watermark_enabled
            && settings.watermark_image_path is Some,
        config.watermark matches Some(w) ==> {
            &&& w.image_path@ == settings.watermark_image_path->0@
            &&& w.position == settings.watermark_position
            &&& w.margin == settings.watermark_edge_margin
            &&& w.scale_percent == settings.watermark_scale_percent
            &&& w.opacity == settings.watermark_opacity
            &&& w.rotation == settings.watermark_rotation
        },
        shows_picture_alone(config) <==> !settings.text_enabled && !settings.poster_resize_33x66
            && !(settings.poster_margin_enabled && settings.poster_margin_px > 0) && !(
        settings.watermark_enabled && settings.watermark_image_path is Some),
{
}

/// A batch can be started just when there are images, a folder to write to, and an image for
/// the watermark where one is asked for. What is missing first is told.
pub proof fn batches_need_images_folder_and_watermark(state: AppState)
    ensures
        ({
            let images = state.image_paths@.len() > 0;
            let folder = state.output_dir is Some;
            let marked = !state.settings.watermark_enabled
                || state.settings.watermark_image_path is Some;
            &&& state.batch_fault() is None <==> images && folder && marked
            &&& !images ==> state.batch_fault() == Some("No images loaded"@)
            &&& images && !folder ==> state.batch_fault() == Some("Select an output folder first"@)
            &&& images && folder && !marked ==> state.batch_fault() == Some(
                "Select a watermark image first"@,
            )
        }),
{
}

/// What a sorting came to is told, each count under its name.
pub proof fn sortings_are_told(summary: NumberedSortSummary)
    ensures
        ({
            let counts = text::decimal(summary.sorted as nat) + " sorted, "@ + text::decimal(
                summary.failed as nat,
            ) + " failed, "@ + text::decimal(summary.skipped as nat) + " skipped, "@
                + text::decimal(summary.folders_created as nat) + " folders created"@;
            &&& sorted_message(summary) == "Sorting complete - "@ + counts
            &&& summary_line(summary) == text::decimal(summary.discovered as nat)
                + " discovered, "@ + counts
        }),
{
    let counts = text::decimal(summary.sorted as nat) + " sorted, "@ + text::decimal(
        summary.failed as nat,
    ) + " failed, "@ + text::decimal(summary.skipped as nat) + " skipped, "@ + text::decimal(
        summary.folders_created as nat,
    ) + " folders created"@;
    assert(sorted_message(summary) =~= "Sorting complete - "@ + counts);
    assert(summary_line(summary) =~= text::decimal(summary.discovered as nat) + " discovered, "@
        + counts);
}

/// Files and folders are shown by their names; what is shown where there is none depends on
/// what it is. Counts of pixels are shown with their unit.
pub proof fn names_are_shown(path: FilePath, otherwise: Seq<char>, s: String, n: u32)
    ensures
        paths::file_name_text(path@) matches Some(name) ==> folder_label(Some(path)) == name
            && name_or(path@, otherwise) == name,
        paths::file_name_text(path@) is None ==> folder_label(Some(path)) == "Selected"@ && name_or(
            path@,
            otherwise,
        ) == otherwise,
        folder_label(None) == "Not set"@,
        text_or(Some(s), otherwise) == s@,
        text_or(None, otherwise) == otherwise,
        pixels_title(otherwise, n) == otherwise + text::decimal(n as nat) + " px"@,
{
}

/// The failures of a sorting are listed in their order, with the file, where it was to go, its
/// number and the error; only files that failed, and eight of them at most.
pub proof fn sorting_failures_are_listed(
    results: Seq<NumberedSortResult>,
    next: NumberedSortResult,
)
    ensures
        sorting_failures(Seq::empty()).len() == 0,
        sorting_failures(results).len() <= 8,
        next.success ==> sorting_failures(results.push(next)) == sorting_failures(results),
        !next.success && sorting_failures(results).len() < 8 ==> sorting_failures(
            results.push(next),
        ) == sorting_failures(results).push(sorting_failure(next)),
        !next.success && sorting_failures(results).len() == 8 ==> sorting_failures(
            results.push(next),
        ) == sorting_failures(results),
        ({
            let to = match next.destination {
                Some(path) => paths::shown(path@),
                None => "no destination"@,
            };
            sorting_failure(next) == "❌ "@ + name_or(next.source@, "?"@) + " → "@ + to
                + " (number "@ + text_or(next.number, "?"@) + "): "@ + text_or(
                next.error,
                "unknown error"@,
            )
        }),
{
    reveal(Seq::filter);
    let unsuccessful = |r: NumberedSortResult| !r.success;
    assert(results.push(next).drop_last() =~= results);
    assert(results.push(next).last() == next);
    let before = results.filter(unsuccessful);
    let after = results.push(next).filter(unsuccessful);
    assert(after == (if unsuccessful(next) {
        before.push(next)
    } else {
        before
    }));
    let lines = sorting_failures(results.push(next));
    if next.success {
        assert(lines =~= sorting_failures(results));
    } else if sorting_failures(results).len() < 8 {
        assert(lines =~= sorting_failures(results).push(sorting_failure(next)));
    } else {
        assert(lines =~= sorting_failures(results));
    }
}

/// The failures of a batch are listed in their order, with the file and the error; only
/// pictures that failed, and five of them at most. Every picture that was exported counts as a
/// success.
pub proof fn batch_failures_are_listed(results: Seq<ProcessResult>, next: ProcessResult)
    ensures
        batch_failures(Seq::empty()).len() == 0,
        batch_failures(results).len() <= 5,
        next.success ==> batch_failures(results.push(next)) == batch_failures(results),
        !next.success && batch_failures(results).len() < 5 ==> batch_failures(results.push(next))
            == batch_failures(results).push(batch_failure(next)),
        !next.success && batch_failures(results).len() == 5 ==> batch_failures(results.push(next))
            == batch_failures(results),
        batch_failure(next) == "❌ "@ + name_or(next.source@, "?"@) + ": "@ + text_or(
            next.error,
            "unknown"@,
        ),
        successes(Seq::empty()) == 0,
        successes(results.push(next)) == successes(results) + (if next.success {
            1nat
        } else {
            0
        }),
{
    reveal(Seq::filter);
    let unsuccessful = |r: ProcessResult| !r.success;
    assert(results.push(next).drop_last() =~= results);
    assert(results.push(next).last() == next);
    let before = results.filter(unsuccessful);
    let after = results.push(next).filter(unsuccessful);
    assert(after == (if unsuccessful(next) {
        before.push(next)
    } else {
        before
    }));
    let lines = batch_failures(results.push(next));
    if next.success {
        assert(lines =~= batch_failures(results));
    } else if batch_failures(results).len() < 5 {
        assert(lines =~= batch_failures(results).push(batch_failure(next)));
    } else {
        assert(lines =~= batch_failures(results));
    }
}

/// At the end of a batch it is told how many pictures succeeded, how many failed and how many
/// there were.
pub proof fn the_end_of_a_batch_is_told(success: nat, failed: nat)
    ensures
        done_message(success, success + failed) == "Done - "@ + text::decimal(success)
            + " succeeded, "@ + text::decimal(failed) + " failed out of "@ + text::decimal(
            success + failed,
        ) + " total"@,
{
}

/// Every image of the list has its own name in the list of names, and question marks where
/// it has none.
pub proof fn images_are_listed_by_name(images: Seq<Seq<u8>>, i: int)
    requires
        0 <= i < images.len(),
    ensures
        listed_names(images).len() == images.len(),
        paths::file_name_text(images[i]) matches Some(name) ==> listed_names(images)[i] == name,
        paths::file_name_text(images[i]) is None ==> listed_names(images)[i] == "???"@,
{
}

/// Before anything is sorted no folder is chosen, files are moved and not copied, nothing runs,
/// and there are no results.
pub proof fn nothing_is_sorted_at_first(state: SortingState)
    requires
        state.is_initial(),
    ensures
        state.source_dir is None,
        !state.copy_files,
        !state.is_sorting,
        state.progress.bits == 0,
        state.status_message@ == "Select a folder of numbered files to sort"@,
        state.results@.len() == 0,
        state.summary is None,
{
}

}
