//! Embeddings of images: which model makes them, what it is handed, and how the parts
//! of the built-in one are counted.

use crate::paths;
use crate::paths::FilePath;
use crate::score::Score;
use crate::text;
use vstd::prelude::*;

verus! {

/// The name of the built-in embedding model.
pub const OPENCV_MODEL_NAME: &'static str = "opencv_color_texture_v1";

/// The name of the model that is used unless another one is asked for.
pub const MODEL_NAME: &'static str = OPENCV_MODEL_NAME;

/// What makes embeddings: the built-in model, or one from a file.
#[derive(Clone, Copy, Debug, PartialEq, Eq, Structural)]
pub enum VisualEmbeddingBackend {
    OpenCv,
    Onnx,
}

/// The backend that a setting names, whatever its case and the space around it.
pub open spec fn named_backend(value: Seq<char>) -> Option<VisualEmbeddingBackend> {
    let name = text::lowered(text::trimmed(value));
    if name == "opencv"@ {
        Some(VisualEmbeddingBackend::OpenCv)
    } else if name == "onnx"@ {
        Some(VisualEmbeddingBackend::Onnx)
    } else {
        None
    }
}

/// What is said of a setting that names no backend.
pub open spec fn backend_message(value: Seq<char>) -> Seq<char> {
    "unsupported visual embedding backend '"@ + text::lowered(text::trimmed(value)) + "'"@
}

impl VisualEmbeddingBackend {
    /// The backend that a setting names, whatever its case and the space around it.
    pub fn parse(value: &str) -> (backend: Result<Self, String>)
        ensures
            match named_backend(value@) {
                Some(b) => backend == Ok::<VisualEmbeddingBackend, String>(b),
                None => backend matches Err(message) && message@ == backend_message(value@),
            },
    {
        proof {
            reveal_strlit("opencv");
            reveal_strlit("onnx");
            assert("opencv"@.len() != "onnx"@.len());
        }
        let trimmed = text::trim(value);
        let name = text::to_lower(trimmed.as_str());
        if text::same_text(name.as_str(), "opencv") {
            Ok(VisualEmbeddingBackend::OpenCv)
        } else if text::same_text(name.as_str(), "onnx") {
            Ok(VisualEmbeddingBackend::Onnx)
        } else {
            let mut message = text::owned("unsupported visual embedding backend '");
            text::push_text(&mut message, name.as_str());
            text::push_text(&mut message, "'");
            Err(message)
        }
    }
}

/// How embeddings are made.
#[derive(Debug)]
pub struct VisualEmbeddingConfig {
    pub backend: VisualEmbeddingBackend,
    pub model_path: Option<FilePath>,
    pub input_size: usize,
    pub normalize: bool,
    pub mean: [Score; 3],
    pub std: [Score; 3],
    pub model_name: Option<String>,
}

impl Default for VisualEmbeddingConfig {
    /// The built-in model on 256 by 256 pixels. For a model from a file, pixels are
    /// normalized by the means 0.485, 0.456 and 0.406 and the deviations 0.229, 0.224
    /// and 0.225.
    fn default() -> (config: Self)
        ensures
            config.backend == VisualEmbeddingBackend::OpenCv,
            config.model_path is None,
            config.input_size == 256,
            config.normalize,
            config.mean@ == seq![
                Score { bits: 0x3ef8_51ec },
                Score { bits: 0x3ee9_78d5 },
                Score { bits: 0x3ecf_df3b },
            ],
            config.std@ == seq![
                Score { bits: 0x3e6a_7efa },
                Score { bits: 0x3e65_6042 },
                Score { bits: 0x3e66_6666 },
            ],
            config.model_name is None,
    {
        VisualEmbeddingConfig {
            backend: VisualEmbeddingBackend::OpenCv,
            model_path: None,
            input_size: 256,
            normalize: true,
            mean: [
                Score { bits: 0x3ef8_51ec },
                Score { bits: 0x3ee9_78d5 },
                Score { bits: 0x3ecf_df3b },
            ],
            std: [
                Score { bits: 0x3e6a_7efa },
                Score { bits: 0x3e65_6042 },
                Score { bits: 0x3e66_6666 },
            ],
            model_name: None,
        }
    }
}

/// The stem of a model's file, as text.
pub open spec fn model_stem(path: Option<FilePath>) -> Seq<char> {
    match path {
        Some(p) => match paths::file_stem_text(p@) {
            Some(stem) => stem,
            None => "model"@,
        },
        None => "model"@,
    }
}

impl VisualEmbeddingConfig {
    /// The same with the backend that a setting names.
    pub fn with_backend(self, backend: &str) -> (config: Result<Self, String>)
        ensures
            match named_backend(backend@) {
                Some(b) => config == Ok::<VisualEmbeddingConfig, String>(
                    VisualEmbeddingConfig { backend: b, ..self },
                ),
                None => config matches Err(message) && message@ == backend_message(backend@),
            },
    {
        match VisualEmbeddingBackend::parse(backend) {
            Ok(backend) => Ok(
                VisualEmbeddingConfig {
                    backend,
                    model_path: self.model_path,
                    input_size: self.input_size,
                    normalize: self.normalize,
                    mean: self.mean,
                    std: self.std,
                    model_name: self.model_name,
                },
            ),
            Err(message) => Err(message),
        }
    }

    /// The name under which embeddings are kept: the one that was given, or one that
    /// tells the model and the size of what it is handed.
    pub open spec fn name(&self) -> Seq<char> {
        let given = match self.model_name {
            Some(name) => name@,
            None => Seq::empty(),
        };
        if given.len() > 0 {
            given
        } else {
            match self.backend {
                VisualEmbeddingBackend::OpenCv => if self.input_size == 256 {
                    OPENCV_MODEL_NAME@
                } else {
                    OPENCV_MODEL_NAME@ + "_"@ + text::decimal(self.input_size as nat) + "px"@
                },
                VisualEmbeddingBackend::Onnx => "onnx_"@ + model_stem(self.model_path) + "_"@
                    + text::decimal(self.input_size as nat) + "px"@,
            }
        }
    }

    /// The name under which embeddings are kept.
    pub fn resolved_model_name(&self) -> (name: String)
        ensures
            name@ == self.name(),
    {
        if let Some(given) = &self.model_name {
            if !given.as_str().is_empty() {
                return given.clone();
            }
        }
        match self.backend {
            VisualEmbeddingBackend::OpenCv => {
                let mut name = text::owned(OPENCV_MODEL_NAME);
                if self.input_size != 256 {
                    text::push_text(&mut name, "_");
                    text::push_decimal(&mut name, self.input_size as u64);
                    text::push_text(&mut name, "px");
                }
                name
            },
            VisualEmbeddingBackend::Onnx => {
                let stem = match &self.model_path {
                    Some(path) => match path.file_stem_text() {
                        Some(stem) => stem,
                        None => text::owned("model"),
                    },
                    None => text::owned("model"),
                };
                let mut name = text::owned("onnx_");
                text::push_text(&mut name, stem.as_str());
                text::push_text(&mut name, "_");
                text::push_decimal(&mut name, self.input_size as u64);
                text::push_text(&mut name, "px");
                name
            },
        }
    }
}

/// Models that are handed pictures of different sizes have different names, unless
/// they were given one.
pub proof fn sizes_are_told_apart(a: VisualEmbeddingConfig, b: VisualEmbeddingConfig)
    requires
        a.model_name is None,
        b.model_name is None,
        a.backend == b.backend,
        a.model_path == b.model_path,
        a.input_size != b.input_size,
    ensures
        a.name() != b.name(),
{
    reveal_strlit("_");
    reveal_strlit("px");
    let x = text::decimal(a.input_size as nat);
    let y = text::decimal(b.input_size as nat);
    text::decimal_reads_back(a.input_size as nat);
    text::decimal_reads_back(b.input_size as nat);
    let start = match a.backend {
        VisualEmbeddingBackend::OpenCv => OPENCV_MODEL_NAME@ + "_"@,
        VisualEmbeddingBackend::Onnx => "onnx_"@ + model_stem(a.model_path) + "_"@,
    };
    if a.name() == b.name() {
        if a.backend == VisualEmbeddingBackend::Onnx || (a.input_size != 256 && b.input_size
            != 256) {
            let whole = a.name();
            assert(whole == start + x + "px"@);
            assert(whole == start + y + "px"@);
            assert(x =~= whole.subrange(start.len() as int, whole.len() - 2));
            assert(y =~= whole.subrange(start.len() as int, whole.len() - 2));
        } else if a.input_size == 256 {
            assert(a.name().len() == OPENCV_MODEL_NAME@.len());
            assert(b.name().len() > OPENCV_MODEL_NAME@.len());
        } else {
            assert(b.name().len() == OPENCV_MODEL_NAME@.len());
            assert(a.name().len() > OPENCV_MODEL_NAME@.len());
        }
    }
}

/// A rectangle of an image, in pixels.
#[derive(Clone, Copy, Debug, PartialEq, Eq, Structural)]
pub struct CropBox {
    pub x: i32,
    pub y: i32,
    pub w: i32,
    pub h: i32,
}

impl CropBox {
    /// The rectangle lies inside an image of this size and is not empty.
    pub open spec fn inside(self, cols: i32, rows: i32) -> bool {
        &&& 0 <= self.x
        &&& 0 <= self.y
        &&& 1 <= self.w
        &&& 1 <= self.h
        &&& self.x + self.w <= cols
        &&& self.y + self.h <= rows
    }
}

/// A start brought into the image.
pub open spec fn start_in(at: int, side: int) -> int {
    if at < 0 {
        0
    } else if at > side - 1 {
        side - 1
    } else {
        at
    }
}

/// A length that goes no farther than the image, and is never empty.
pub open spec fn length_in(length: int, left: int) -> int {
    let short = if length < left {
        length
    } else {
        left
    };
    if short < 1 {
        1
    } else {
        short
    }
}

/// The rectangle, as near to a wished one as the image allows, that a rider and a
/// motorcycle are looked for in.
pub open spec fn proxy_box(cols: i32, rows: i32, wished: CropBox) -> CropBox {
    let x = start_in(wished.x as int, cols as int);
    let y = start_in(wished.y as int, rows as int);
    CropBox {
        x: x as i32,
        y: y as i32,
        w: length_in(wished.w as int, cols - x) as i32,
        h: length_in(wished.h as int, rows - y) as i32,
    }
}

/// Brings the rectangle that a rider and a motorcycle are looked for in into the
/// image.
pub fn rider_motorcycle_proxy_crop(cols: i32, rows: i32, wished: CropBox) -> (crop: Result<
    CropBox,
    String,
>)
    ensures
        match crop {
            Ok(c) => cols > 0 && rows > 0 && c == proxy_box(cols, rows, wished) && c.inside(
                cols,
                rows,
            ),
            Err(message) => (cols <= 0 || rows <= 0) && message@
                == "image has invalid dimensions"@,
        },
{
    if cols <= 0 || rows <= 0 {
        return Err(text::owned("image has invalid dimensions"));
    }
    let x: i32 = if wished.x < 0 {
        0
    } else if wished.x > cols - 1 {
        cols - 1
    } else {
        wished.x
    };
    let y: i32 = if wished.y < 0 {
        0
    } else if wished.y > rows - 1 {
        rows - 1
    } else {
        wished.y
    };
    let w: i32 = if wished.w < 1 {
        1
    } else if wished.w < cols - x {
        wished.w
    } else {
        cols - x
    };
    let h: i32 = if wished.h < 1 {
        1
    } else if wished.h < rows - y {
        wished.h
    } else {
        rows - y
    };
    Ok(CropBox { x, y, w, h })
}

/// An embedding of an image, with the rectangle that it was made of.
#[derive(Debug)]
pub struct VisualEmbeddingResult {
    pub embedding: Vec<Score>,
    pub crop_path: Option<FilePath>,
    pub crop_bbox: Option<CropBox>,
    pub quality: Option<Score>,
}

impl VisualEmbeddingResult {
    /// The same, with the path of the crop that was written, where one was.
    pub fn with_debug_crop(self, path: Option<&FilePath>) -> (result: VisualEmbeddingResult)
        ensures
            result.embedding == self.embedding,
            result.crop_bbox == self.crop_bbox,
            result.quality == self.quality,
            match path {
                Some(p) => result.crop_path matches Some(c) && c@ == p@,
                None => result.crop_path == self.crop_path,
            },
    {
        match path {
            Some(p) => VisualEmbeddingResult {
                embedding: self.embedding,
                crop_path: Some(p.clone()),
                crop_bbox: self.crop_bbox,
                quality: self.quality,
            },
            None => self,
        }
    }
}

/// The side of the smallest picture that a model is handed.
pub const MIN_INPUT_SIZE: usize = 32;

/// The built-in model.
#[derive(Debug)]
pub struct OpenCvEmbeddingProvider {
    pub model_name: String,
    pub input_size: i32,
}

impl Default for OpenCvEmbeddingProvider {
    /// The built-in model on 256 by 256 pixels.
    fn default() -> (provider: Self)
        ensures
            provider.model_name@ == OPENCV_MODEL_NAME@,
            provider.input_size == 256,
    {
        OpenCvEmbeddingProvider::new(256)
    }
}

impl OpenCvEmbeddingProvider {
    /// The built-in model on pictures of a size, under its own name.
    pub fn new(input_size: i32) -> (provider: Self)
        ensures
            provider.model_name@ == OPENCV_MODEL_NAME@,
            provider.input_size == (if input_size < MIN_INPUT_SIZE {
                MIN_INPUT_SIZE as i32
            } else {
                input_size
            }),
    {
        OpenCvEmbeddingProvider::with_model_name(input_size, text::owned(OPENCV_MODEL_NAME))
    }

    /// The built-in model on pictures of a size, but not below the smallest one.
    pub fn with_model_name(input_size: i32, model_name: String) -> (provider: Self)
        ensures
            provider.model_name@ == model_name@,
            provider.input_size == (if input_size < MIN_INPUT_SIZE {
                MIN_INPUT_SIZE as i32
            } else {
                input_size
            }),
    {
        let size: i32 = if input_size < 32 {
            32
        } else {
            input_size
        };
        OpenCvEmbeddingProvider { model_name, input_size: size }
    }

    /// How many numbers an embedding has: 16, 8 and 8 for hue, saturation and value,
    /// and of each of 16 cells three for its mean color and one for its edges.
    pub fn embedding_dim(&self) -> (dim: usize)
        ensures
            dim == 96,
            dim == (HUE_BINS + TONE_BINS + TONE_BINS) + GRID * GRID * 4,
    {
        96
    }
}

/// The order in which a model takes the values of a picture: color by color, or pixel
/// by pixel.
#[derive(Clone, Copy, Debug, PartialEq, Eq, Structural)]
pub enum OnnxInputLayout {
    Nchw,
    Nhwc,
}

/// The layout that a shape asks for.
pub open spec fn shape_layout(shape: Seq<i64>) -> Option<OnnxInputLayout> {
    if shape.len() != 4 {
        None
    } else if shape[1] == 3 {
        Some(OnnxInputLayout::Nchw)
    } else if shape[3] == 3 {
        Some(OnnxInputLayout::Nhwc)
    } else if shape[1] <= 0 {
        Some(OnnxInputLayout::Nchw)
    } else {
        None
    }
}

impl OnnxInputLayout {
    /// The layout that a shape asks for: four dimensions, of which the second or the
    /// fourth one counts the colors, or the second one is left open.
    pub fn from_shape(shape: &[i64]) -> (layout: Option<OnnxInputLayout>)
        ensures
            layout == shape_layout(shape@),
    {
        if shape.len() != 4 {
            return None;
        }
        if shape[1] == 3 {
            Some(OnnxInputLayout::Nchw)
        } else if shape[3] == 3 {
            Some(OnnxInputLayout::Nhwc)
        } else if shape[1] <= 0 {
            Some(OnnxInputLayout::Nchw)
        } else {
            None
        }
    }

    /// The shape of a picture of a size.
    pub fn shape(self, input_size: usize) -> (shape: Vec<i64>)
        requires
            input_size <= i64::MAX,
        ensures
            shape@ == (match self {
                OnnxInputLayout::Nchw => seq![1i64, 3i64, input_size as i64, input_size as i64],
                OnnxInputLayout::Nhwc => seq![1i64, input_size as i64, input_size as i64, 3i64],
            }),
    {
        let side: i64 = input_size as i64;
        let mut shape: Vec<i64> = Vec::new();
        shape.push(1);
        match self {
            OnnxInputLayout::Nchw => {
                shape.push(3);
                shape.push(side);
                shape.push(side);
            },
            OnnxInputLayout::Nhwc => {
                shape.push(side);
                shape.push(side);
                shape.push(3);
            },
        }
        shape
    }
}

/// A model can be handed what its own layout makes: the shape that a layout gives is
/// one that asks for that layout.
pub proof fn shapes_ask_for_their_layout(layout: OnnxInputLayout, side: i64)
    requires
        side > 3,
    ensures
        shape_layout(
            match layout {
                OnnxInputLayout::Nchw => seq![1i64, 3i64, side, side],
                OnnxInputLayout::Nhwc => seq![1i64, side, side, 3i64],
            },
        ) == Some(layout),
{
}

/// The place of a value in what a model is handed, of a picture with so many pixels.
pub open spec fn tensor_index(layout: OnnxInputLayout, pixels: int, pixel: int, channel: int) -> int {
    match layout {
        OnnxInputLayout::Nchw => channel * pixels + pixel,
        OnnxInputLayout::Nhwc => pixel * 3 + channel,
    }
}

/// The pixel and the color that stand at a place.
pub open spec fn tensor_source(layout: OnnxInputLayout, pixels: int, at: int) -> (int, int) {
    match layout {
        OnnxInputLayout::Nchw => (at % pixels, at / pixels),
        OnnxInputLayout::Nhwc => (at / 3, at % 3),
    }
}

/// Every value of a picture has a place of its own in what a model is handed, and no
/// place is left empty.
pub proof fn every_value_has_its_place(layout: OnnxInputLayout, pixels: int)
    requires
        pixels > 0,
    ensures
        forall|pixel: int, channel: int|
            #![trigger tensor_index(layout, pixels, pixel, channel)]
            0 <= pixel < pixels && 0 <= channel < 3 ==> {
                &&& 0 <= tensor_index(layout, pixels, pixel, channel) < 3 * pixels
                &&& tensor_source(layout, pixels, tensor_index(layout, pixels, pixel, channel)) == (
                    pixel,
                    channel,
                )
            },
        forall|at: int|
            #![trigger tensor_source(layout, pixels, at)]
            0 <= at < 3 * pixels ==> {
                let source = tensor_source(layout, pixels, at);
                &&& 0 <= source.0 < pixels
                &&& 0 <= source.1 < 3
                &&& tensor_index(layout, pixels, source.0, source.1) == at
            },
{
    assert forall|pixel: int, channel: int|
        #![trigger tensor_index(layout, pixels, pixel, channel)]
        0 <= pixel < pixels && 0 <= channel < 3 implies {
        &&& 0 <= tensor_index(layout, pixels, pixel, channel) < 3 * pixels
        &&& tensor_source(layout, pixels, tensor_index(layout, pixels, pixel, channel)) == (
            pixel,
            channel,
        )
    } by {
        let at = tensor_index(layout, pixels, pixel, channel);
        if layout == OnnxInputLayout::Nchw {
            assert(0 <= channel * pixels <= 2 * pixels) by (nonlinear_arith)
                requires
                    0 <= channel <= 2,
                    pixels > 0,
            ;
            vstd::arithmetic::div_mod::lemma_fundamental_div_mod_converse(
                at,
                pixels,
                channel,
                pixel,
            );
        }
    }
    assert forall|at: int|
        #![trigger tensor_source(layout, pixels, at)]
        0 <= at < 3 * pixels implies {
        let source = tensor_source(layout, pixels, at);
        &&& 0 <= source.0 < pixels
        &&& 0 <= source.1 < 3
        &&& tensor_index(layout, pixels, source.0, source.1) == at
    } by {
        if layout == OnnxInputLayout::Nchw {
            vstd::arithmetic::div_mod::lemma_fundamental_div_mod(at, pixels);
            let q = at / pixels;
            assert(0 <= q < 3) by (nonlinear_arith)
                requires
                    at == pixels * q + at % pixels,
                    0 <= at % pixels < pixels,
                    0 <= at < 3 * pixels,
            ;
            assert(q * pixels == pixels * q) by (nonlinear_arith);
        }
    }
}

/// What a model is handed of a picture with three values for each pixel. The table
/// gives the number that a value of each color stands for.
pub fn onnx_input_tensor(
    rgb: &Vec<u8>,
    input_size: usize,
    layout: OnnxInputLayout,
    table: &Vec<Score>,
) -> (data: Vec<Score>)
    requires
        rgb@.len() == 3 * (input_size * input_size),
        table@.len() == 768,
    ensures
        data@.len() == rgb@.len(),
        forall|y: int, x: int, channel: int|
            #![trigger tensor_index(layout, input_size * input_size, y * input_size + x, channel)]
            0 <= y < input_size && 0 <= x < input_size && 0 <= channel < 3 ==> data@[tensor_index(
                layout,
                input_size * input_size,
                y * input_size + x,
                channel,
            )] == table@[channel * 256 + rgb@[(y * input_size + x) * 3 + channel]],
{
    let len: usize = rgb.len();
    let pixels: usize = len / 3;
    let ghost n = input_size * input_size;
    assert(pixels == n);
    let mut data: Vec<Score> = Vec::new();
    let mut at: usize = 0;
    while at < len
        invariant
            at <= len,
            len == rgb@.len(),
            len == 3 * n,
            pixels == n,
            n >= 0,
            table@.len() == 768,
            data@.len() == at,
            forall|i: int|
                #![trigger data@[i]]
                0 <= i < at ==> {
                    let source = tensor_source(layout, n, i);
                    data@[i] == table@[source.1 * 256 + rgb@[source.0 * 3 + source.1]]
                },
        decreases len - at,
    {
        proof {
            every_value_has_its_place(layout, n);
            let source = tensor_source(layout, n, at as int);
            assert(0 <= source.0 < n && 0 <= source.1 < 3);
        }
        let (pixel, channel): (usize, usize) = match layout {
            OnnxInputLayout::Nchw => (at % pixels, at / pixels),
            OnnxInputLayout::Nhwc => (at / 3, at % 3),
        };
        assert((pixel as int, channel as int) == tensor_source(layout, n, at as int));
        data.push(table[channel * 256 + rgb[pixel * 3 + channel] as usize]);
        at += 1;
    }
    proof {
        assert forall|y: int, x: int, channel: int|
            #![trigger tensor_index(layout, input_size * input_size, y * input_size + x, channel)]
            0 <= y < input_size && 0 <= x < input_size && 0 <= channel < 3 implies data@[tensor_index(
            layout,
            input_size * input_size,
            y * input_size + x,
            channel,
        )] == table@[channel * 256 + rgb@[(y * input_size + x) * 3 + channel]] by {
            let pixel = y * input_size + x;
            assert(0 <= pixel < n) by (nonlinear_arith)
                requires
                    0 <= y < input_size,
                    0 <= x < input_size,
                    pixel == y * input_size + x,
                    n == input_size * input_size,
            ;
            every_value_has_its_place(layout, n);
            let i = tensor_index(layout, n, pixel, channel);
            assert(tensor_source(layout, n, i) == (pixel, channel));
            assert(data@[i] == table@[channel * 256 + rgb@[pixel * 3 + channel]]);
        }
    }
    data
}

/// The product of numbers.
pub open spec fn product(dims: Seq<i64>) -> int
    decreases dims.len(),
{
    if dims.len() == 0 {
        1
    } else {
        product(dims.drop_last()) * dims.last()
    }
}

/// The dimensions of a shape without the first one, where that counts pictures.
pub open spec fn own_dims(shape: Seq<i64>) -> Seq<i64> {
    if shape.len() > 0 && (shape[0] == 1 || shape[0] == -1) {
        shape.skip(1)
    } else {
        shape
    }
}

/// How many numbers an embedding of a shape has, where the shape says so.
pub open spec fn static_dim(shape: Seq<i64>) -> Option<int> {
    if shape.len() == 0 || (exists|i: int|
        0 <= i < shape.len() && (#[trigger] shape[i] == 0 || shape[i] < -1)) || (exists|i: int|
        0 <= i < own_dims(shape).len() && #[trigger] own_dims(shape)[i] <= 0) {
        None
    } else {
        Some(product(own_dims(shape)))
    }
}

proof fn lemma_product_grows(dims: Seq<i64>, upto: int)
    requires
        0 <= upto <= dims.len(),
        forall|i: int| 0 <= i < dims.len() ==> #[trigger] dims[i] > 0,
    ensures
        1 <= product(dims.take(upto)) <= product(dims),
    decreases dims.len(),
{
    if upto == dims.len() {
        assert(dims.take(upto) =~= dims);
        if dims.len() > 0 {
            lemma_product_grows(dims.drop_last(), upto - 1);
            assert(dims.drop_last().take(upto - 1) =~= dims.drop_last());
            let p = product(dims.drop_last());
            let d = dims.last() as int;
            assert(1 <= p * d) by (nonlinear_arith)
                requires
                    p >= 1,
                    d >= 1,
            ;
        }
    } else {
        lemma_product_grows(dims.drop_last(), upto);
        assert(dims.drop_last().take(upto) =~= dims.take(upto));
        let p = product(dims.drop_last());
        let d = dims.last() as int;
        assert(p <= p * d) by (nonlinear_arith)
            requires
                p >= 1,
                d >= 1,
        ;
    }
}

/// How many numbers an embedding of a shape has, where the shape says so.
pub fn static_embedding_dim(shape: &[i64]) -> (dim: Option<usize>)
    requires
        static_dim(shape@) matches Some(n) ==> n <= usize::MAX,
    ensures
        match dim {
            Some(n) => static_dim(shape@) == Some(n as int),
            None => static_dim(shape@) is None,
        },
{
    let end: usize = shape.len();
    if end == 0 {
        return None;
    }
    let mut i: usize = 0;
    while i < end
        invariant
            i <= end,
            end == shape@.len(),
            forall|j: int| 0 <= j < i ==> !(#[trigger] shape@[j] == 0 || shape@[j] < -1),
        decreases end - i,
    {
        if shape[i] == 0 || shape[i] < -1 {
            return None;
        }
        i += 1;
    }
    let start: usize = if shape[0] == 1 || shape[0] == -1 {
        1
    } else {
        0
    };
    let ghost dims = own_dims(shape@);
    assert(dims =~= shape@.skip(start as int));
    let mut k: usize = start;
    while k < end
        invariant
            start <= k <= end,
            end == shape@.len(),
            start <= 1,
            dims == own_dims(shape@),
            dims == shape@.skip(start as int),
            forall|j: int| 0 <= j < k - start ==> #[trigger] dims[j] > 0,
        decreases end - k,
    {
        assert(shape@[k as int] == dims[k - start]);
        if shape[k] <= 0 {
            return None;
        }
        k += 1;
    }
    assert(static_dim(shape@) == Some(product(dims)));
    let mut dim: usize = 1;
    let mut m: usize = start;
    assert(dims.take(0) =~= Seq::<i64>::empty());
    while m < end
        invariant
            start <= m <= end,
            end == shape@.len(),
            start <= 1,
            dims == shape@.skip(start as int),
            forall|j: int| 0 <= j < dims.len() ==> #[trigger] dims[j] > 0,
            product(dims) <= usize::MAX,
            dim == product(dims.take(m - start)),
        decreases end - m,
    {
        let factor: i64 = shape[m];
        proof {
            assert(factor == dims[m - start]);
            lemma_product_grows(dims, m - start);
            lemma_product_grows(dims, m - start + 1);
            let next = dims.take(m - start + 1);
            assert(next.drop_last() =~= dims.take(m - start));
            assert(next.last() == factor);
            assert(dim * factor <= usize::MAX);
            assert(factor <= dim * factor) by (nonlinear_arith)
                requires
                    dim >= 1,
                    factor >= 1,
            ;
        }
        dim = dim * (factor as usize);
        m += 1;
    }
    assert(dims.take(dims.len() as int) =~= dims);
    Some(dim)
}

/// An input or an output of a model: its name, its shape where it is a tensor, and
/// whether it is one of single-precision numbers.
#[derive(Debug)]
pub struct OnnxTensor {
    pub name: String,
    pub shape: Option<Vec<i64>>,
    pub is_float: bool,
}

/// Numbers as they are listed, in brackets with commas between them.
pub open spec fn listed(numbers: Seq<i64>) -> Seq<char> {
    "["@ + text::joined(
        Seq::new(numbers.len(), |i: int| text::signed_decimal(numbers[i] as int)),
        ", "@,
    ) + "]"@
}

/// Numbers as they are listed, in brackets with commas between them.
pub fn list_text(numbers: &[i64]) -> (out: String)
    ensures
        out@ == listed(numbers@),
{
    let ghost written = Seq::new(numbers@.len(), |i: int| text::signed_decimal(numbers@[i] as int));
    let mut parts: Vec<String> = Vec::new();
    let mut i: usize = 0;
    while i < numbers.len()
        invariant
            i <= numbers@.len(),
            parts@.len() == i,
            written == Seq::new(
                numbers@.len(),
                |i: int| text::signed_decimal(numbers@[i] as int),
            ),
            forall|j: int| 0 <= j < i ==> (#[trigger] parts@[j])@ == written[j],
        decreases numbers@.len() - i,
    {
        let mut part = String::new();
        text::push_signed(&mut part, numbers[i]);
        assert(part@ =~= written[i as int]);
        parts.push(part);
        i += 1;
    }
    assert(text::texts(parts@) =~= written);
    let mut out = text::owned("[");
    let joined = text::join(&parts, ", ");
    text::push_text(&mut out, joined.as_str());
    text::push_text(&mut out, "]");
    out
}

/// A model from a file, and how it is handed pictures.
#[derive(Debug)]
pub struct OnnxEmbeddingProvider {
    pub model_name: String,
    pub input_name: String,
    pub output_name: String,
    pub input_size: usize,
    pub input_layout: OnnxInputLayout,
    pub normalize_pixels: bool,
    pub mean: [Score; 3],
    pub std: [Score; 3],
    pub output_dim: usize,
}

/// What is wrong with the inputs and the outputs of a model, where something is.
pub open spec fn model_fault(inputs: Seq<OnnxTensor>, outputs: Seq<OnnxTensor>) -> Option<Seq<char>> {
    if inputs.len() == 0 {
        Some("ONNX embedding model has no inputs"@)
    } else if inputs[0].shape is None {
        Some("ONNX input '"@ + inputs[0].name@ + "' is not a tensor"@)
    } else if shape_layout(inputs[0].shape->0@) is None {
        Some(
            "unsupported ONNX input shape for '"@ + inputs[0].name@ + "': "@ + listed(
                inputs[0].shape->0@,
            ) + "; expected NCHW or NHWC image tensor"@,
        )
    } else if !inputs[0].is_float {
        Some("ONNX input '"@ + inputs[0].name@ + "' must be f32"@)
    } else if outputs.len() == 0 {
        Some("ONNX embedding model has no outputs"@)
    } else if !outputs[0].is_float {
        Some("ONNX output '"@ + outputs[0].name@ + "' must be f32"@)
    } else {
        None
    }
}

/// How many numbers an output has, or 0 where its shape does not say.
pub open spec fn output_dim(shape: Option<Vec<i64>>) -> int {
    match shape {
        Some(s) => match static_dim(s@) {
            Some(n) => n,
            None => 0,
        },
        None => 0,
    }
}

fn about(before: &str, name: &String, after: &str) -> (message: String)
    ensures
        message@ == before@ + name@ + after@,
{
    let mut message = text::owned(before);
    text::push_text(&mut message, name.as_str());
    text::push_text(&mut message, after);
    message
}

impl OnnxEmbeddingProvider {
    /// Where the model's file is, which has to be set.
    pub fn model_path(config: &VisualEmbeddingConfig) -> (path: Result<FilePath, String>)
        ensures
            match config.model_path {
                Some(p) => path matches Ok(q) && q@ == p@,
                None => path matches Err(message) && message@
                    == "visual_embedding_model_path is required when backend is 'onnx'"@,
            },
    {
        match &config.model_path {
            Some(path) => Ok(path.clone()),
            None => Err(
                text::owned("visual_embedding_model_path is required when backend is 'onnx'"),
            ),
        }
    }

    /// What is said of a model's file that does not exist.
    pub fn missing_model(path: &FilePath) -> (message: String)
        ensures
            message@ == "ONNX embedding model does not exist: "@ + paths::shown(path@),
    {
        let shown = path.display_text();
        let mut message = text::owned("ONNX embedding model does not exist: ");
        text::push_text(&mut message, shown.as_str());
        message
    }

    /// A model that was loaded, by its inputs and its outputs: the first input has to
    /// take pictures, and both have to be of single-precision numbers.
    pub fn new(
        config: &VisualEmbeddingConfig,
        inputs: &Vec<OnnxTensor>,
        outputs: &Vec<OnnxTensor>,
    ) -> (provider: Result<OnnxEmbeddingProvider, String>)
        requires
            outputs@.len() > 0 ==> output_dim(outputs@[0].shape) <= usize::MAX,
        ensures
            match model_fault(inputs@, outputs@) {
                Some(fault) => provider matches Err(message) && message@ == fault,
                None => provider matches Ok(p) && {
                    &&& p.model_name@ == config.name()
                    &&& p.input_name@ == inputs@[0].name@
                    &&& p.output_name@ == outputs@[0].name@
                    &&& p.input_size == (if config.input_size < MIN_INPUT_SIZE {
                        MIN_INPUT_SIZE
                    } else {
                        config.input_size
                    })
                    &&& Some(p.input_layout) == shape_layout(inputs@[0].shape->0@)
                    &&& p.normalize_pixels == config.normalize
                    &&& p.mean == config.mean
                    &&& p.std == config.std
                    &&& p.output_dim == output_dim(outputs@[0].shape)
                },
            },
    {
        if inputs.len() == 0 {
            return Err(text::owned("ONNX embedding model has no inputs"));
        }
        let input = &inputs[0];
        let shape = match &input.shape {
            Some(shape) => shape,
            None => {
                return Err(about("ONNX input '", &input.name, "' is not a tensor"));
            },
        };
        let input_layout = match OnnxInputLayout::from_shape(shape.as_slice()) {
            Some(layout) => layout,
            None => {
                let mut message = about("unsupported ONNX input shape for '", &input.name, "': ");
                let list = list_text(shape.as_slice());
                text::push_text(&mut message, list.as_str());
                text::push_text(&mut message, "; expected NCHW or NHWC image tensor");
                return Err(message);
            },
        };
        if !input.is_float {
            return Err(about("ONNX input '", &input.name, "' must be f32"));
        }
        if outputs.len() == 0 {
            return Err(text::owned("ONNX embedding model has no outputs"));
        }
        let output = &outputs[0];
        if !output.is_float {
            return Err(about("ONNX output '", &output.name, "' must be f32"));
        }
        let output_dim: usize = match &output.shape {
            Some(shape) => match static_embedding_dim(shape.as_slice()) {
                Some(n) => n,
                None => 0,
            },
            None => 0,
        };
        let input_size: usize = if config.input_size < MIN_INPUT_SIZE {
            MIN_INPUT_SIZE
        } else {
            config.input_size
        };
        Ok(
            OnnxEmbeddingProvider {
                model_name: config.resolved_model_name(),
                input_name: input.name.clone(),
                output_name: output.name.clone(),
                input_size,
                input_layout,
                normalize_pixels: config.normalize,
                mean: config.mean,
                std: config.std,
                output_dim,
            },
        )
    }

    /// Whether what a model returned can be an embedding: it has two numbers at least.
    pub fn check_output(shape: &[i64], len: usize) -> (checked: Result<(), String>)
        ensures
            match checked {
                Ok(_) => len >= 2,
                Err(message) => len < 2 && message@ == "unsupported ONNX output shape "@ + listed(
                    shape@,
                ) + "; expected a non-empty embedding vector"@,
            },
    {
        if len < 2 {
            let mut message = text::owned("unsupported ONNX output shape ");
            let list = list_text(shape);
            text::push_text(&mut message, list.as_str());
            text::push_text(&mut message, "; expected a non-empty embedding vector");
            return Err(message);
        }
        Ok(())
    }
}

/// What makes embeddings for a configuration: the built-in model, or a model from a
/// file, which has to be loaded first.
#[derive(Debug)]
pub enum EmbeddingChoice {
    BuiltIn(OpenCvEmbeddingProvider),
    FromFile,
}

/// Chooses what makes embeddings.
pub fn build_embedding_provider(config: &VisualEmbeddingConfig) -> (choice: EmbeddingChoice)
    ensures
        match config.backend {
            VisualEmbeddingBackend::OpenCv => choice matches EmbeddingChoice::BuiltIn(provider)
                && provider.model_name@ == config.name() && provider.input_size == (if (
            config.input_size as i32) < MIN_INPUT_SIZE {
                MIN_INPUT_SIZE as i32
            } else {
                config.input_size as i32
            }),
            VisualEmbeddingBackend::Onnx => choice is FromFile,
        },
{
    match config.backend {
        VisualEmbeddingBackend::OpenCv => EmbeddingChoice::BuiltIn(
            OpenCvEmbeddingProvider::with_model_name(
                #[verifier::truncate] (config.input_size as i32),
                config.resolved_model_name(),
            ),
        ),
        VisualEmbeddingBackend::Onnx => EmbeddingChoice::FromFile,
    }
}

/// How many bins the hue is counted in.
pub const HUE_BINS: usize = 16;

/// How many bins the saturation and the value are counted in.
pub const TONE_BINS: usize = 8;

/// How many cells a picture is divided in, across and down.
pub const GRID: usize = 4;

/// The largest number up to which a single-precision number can be counted by ones.
pub const COUNT_LIMIT: u32 = 16777216;

/// A count in single precision.
pub open spec fn counted(n: nat) -> nat {
    if n < COUNT_LIMIT {
        n
    } else {
        COUNT_LIMIT as nat
    }
}

/// The bin of a value, of so many bins for values below `range`.
pub open spec fn bin_of(value: u8, bins: usize, range: usize) -> int {
    let bin = (value * bins) / (range as int);
    if bin < bins - 1 {
        bin
    } else {
        bins - 1
    }
}

/// How many of the first pixels have one of their three values in a bin.
pub open spec fn bin_count(
    values: Seq<u8>,
    channel: int,
    bins: usize,
    range: usize,
    bin: int,
    upto: nat,
) -> nat
    decreases upto,
{
    if upto == 0 {
        0
    } else {
        let before = bin_count(values, channel, bins, range, bin, (upto - 1) as nat);
        if bin_of(values[(upto - 1) * 3 + channel], bins, range) == bin {
            before + 1
        } else {
            before
        }
    }
}

/// The counts of one of the three values of each pixel, by bins.
fn channel_histogram(values: &Vec<u8>, channel: usize, bins: usize, range: usize) -> (counts: Vec<
    u32,
>)
    requires
        values@.len() % 3 == 0,
        channel < 3,
        0 < bins <= 16,
        0 < range,
    ensures
        counts@.len() == bins,
        forall|b: int|
            0 <= b < bins ==> #[trigger] counts@[b] == counted(
                bin_count(values@, channel as int, bins, range, b, (values@.len() / 3) as nat),
            ),
{
    let mut counts: Vec<u32> = Vec::new();
    let mut k: usize = 0;
    while k < bins
        invariant
            k <= bins,
            counts@.len() == k,
            forall|b: int| 0 <= b < k ==> #[trigger] counts@[b] == 0,
        decreases bins - k,
    {
        counts.push(0);
        k += 1;
    }
    let len: usize = values.len();
    let pixels: usize = len / 3;
    let mut p: usize = 0;
    while p < pixels
        invariant
            p <= pixels,
            len == values@.len(),
            pixels == len / 3,
            len % 3 == 0,
            channel < 3,
            0 < bins <= 16,
            0 < range,
            counts@.len() == bins,
            forall|b: int|
                0 <= b < bins ==> #[trigger] counts@[b] == counted(
                    bin_count(values@, channel as int, bins, range, b, p as nat),
                ),
        decreases pixels - p,
    {
        assert(p * 3 + channel < len);
        let value: u8 = values[p * 3 + channel];
        assert(value * bins <= 255 * 16) by (nonlinear_arith)
            requires
                value <= 255,
                0 <= bins <= 16,
        ;
        let raw: usize = (value as usize * bins) / range;
        let bin: usize = if raw < bins - 1 {
            raw
        } else {
            bins - 1
        };
        assert(bin == bin_of(value, bins, range));
        let ghost before = counts@;
        let count: u32 = counts[bin];
        if count < COUNT_LIMIT {
            counts.set(bin, count + 1);
        }
        proof {
            assert forall|b: int| 0 <= b < bins implies #[trigger] counts@[b] == counted(
                bin_count(values@, channel as int, bins, range, b, (p + 1) as nat),
            ) by {
                assert(before[b] == counted(
                    bin_count(values@, channel as int, bins, range, b, p as nat),
                ));
            }
        }
        p += 1;
    }
    counts
}

/// How often each hue, saturation and value occurs in a picture, and how many pixels
/// it has, counted in single precision.
#[derive(Debug)]
pub struct HsvHistogram {
    pub hue: Vec<u32>,
    pub sat: Vec<u32>,
    pub val: Vec<u32>,
    pub total: u32,
}

/// Counts the hues, below 180, the saturations and the values of a picture.
pub fn hsv_histogram(hsv: &Vec<u8>) -> (histogram: HsvHistogram)
    requires
        hsv@.len() % 3 == 0,
    ensures
        histogram.hue@.len() == HUE_BINS,
        histogram.sat@.len() == TONE_BINS,
        histogram.val@.len() == TONE_BINS,
        forall|b: int|
            0 <= b < HUE_BINS ==> #[trigger] histogram.hue@[b] == counted(
                bin_count(hsv@, 0, HUE_BINS, 180, b, (hsv@.len() / 3) as nat),
            ),
        forall|b: int|
            0 <= b < TONE_BINS ==> #[trigger] histogram.sat@[b] == counted(
                bin_count(hsv@, 1, TONE_BINS, 256, b, (hsv@.len() / 3) as nat),
            ),
        forall|b: int|
            0 <= b < TONE_BINS ==> #[trigger] histogram.val@[b] == counted(
                bin_count(hsv@, 2, TONE_BINS, 256, b, (hsv@.len() / 3) as nat),
            ),
        histogram.total == counted((hsv@.len() / 3) as nat),
{
    let pixels: usize = hsv.len() / 3;
    let total: u32 = if pixels < COUNT_LIMIT as usize {
        pixels as u32
    } else {
        COUNT_LIMIT
    };
    HsvHistogram {
        hue: channel_histogram(hsv, 0, HUE_BINS, 180),
        sat: channel_histogram(hsv, 1, TONE_BINS, 256),
        val: channel_histogram(hsv, 2, TONE_BINS, 256),
        total,
    }
}

/// The sum of the counts of all bins.
pub open spec fn bins_total(
    values: Seq<u8>,
    channel: int,
    bins: usize,
    range: usize,
    upto: nat,
    first: nat,
) -> nat
    decreases first,
{
    if first == 0 {
        0
    } else {
        bins_total(values, channel, bins, range, upto, (first - 1) as nat) + bin_count(
            values,
            channel,
            bins,
            range,
            first - 1,
            upto,
        )
    }
}

proof fn lemma_one_more_pixel(
    values: Seq<u8>,
    channel: int,
    bins: usize,
    range: usize,
    upto: nat,
    first: nat,
)
    ensures
        bins_total(values, channel, bins, range, upto + 1, first) == bins_total(
            values,
            channel,
            bins,
            range,
            upto,
            first,
        ) + (if 0 <= bin_of(values[upto * 3 + channel], bins, range) < first {
            1nat
        } else {
            0nat
        }),
    decreases first,
{
    if first > 0 {
        lemma_one_more_pixel(values, channel, bins, range, upto, (first - 1) as nat);
    }
}

/// Every pixel is counted in just one bin.
pub proof fn every_pixel_is_in_one_bin(
    values: Seq<u8>,
    channel: int,
    bins: usize,
    range: usize,
    upto: nat,
)
    requires
        bins > 0,
        range > 0,
    ensures
        bins_total(values, channel, bins, range, upto, bins as nat) == upto,
    decreases upto,
{
    if upto > 0 {
        every_pixel_is_in_one_bin(values, channel, bins, range, (upto - 1) as nat);
        lemma_one_more_pixel(values, channel, bins, range, (upto - 1) as nat, bins as nat);
        let value = values[(upto - 1) * 3 + channel];
        let scaled = value * bins;
        assert(scaled >= 0) by (nonlinear_arith)
            requires
                scaled == value * bins,
        ;
        assert(scaled / (range as int) >= 0) by (nonlinear_arith)
            requires
                scaled >= 0,
                range > 0,
        ;
    } else {
        lemma_no_pixels(values, channel, bins, range, bins as nat);
    }
}

proof fn lemma_no_pixels(values: Seq<u8>, channel: int, bins: usize, range: usize, first: nat)
    ensures
        bins_total(values, channel, bins, range, 0, first) == 0,
    decreases first,
{
    if first > 0 {
        lemma_no_pixels(values, channel, bins, range, (first - 1) as nat);
    }
}

/// Where a cell starts on a side, or ends for the cell before.
pub open spec fn cell_edge(side: int, cell: int) -> int {
    if cell == GRID {
        side
    } else {
        cell * (side / GRID as int)
    }
}

/// The cell of a picture of this size: where it starts and where it ends. The last
/// cells of a row and of a column take what is left.
pub fn grid_cell(cols: usize, rows: usize, cell_x: usize, cell_y: usize) -> (cell: (
    usize,
    usize,
    usize,
    usize,
))
    requires
        cell_x < GRID,
        cell_y < GRID,
    ensures
        cell.0 == cell_edge(cols as int, cell_x as int),
        cell.1 == cell_edge(rows as int, cell_y as int),
        cell.2 == cell_edge(cols as int, cell_x + 1),
        cell.3 == cell_edge(rows as int, cell_y + 1),
        cell.0 <= cell.2 <= cols,
        cell.1 <= cell.3 <= rows,
{
    let cell_w: usize = cols / GRID;
    let cell_h: usize = rows / GRID;
    proof {
        lemma_edges(cols as int, cell_x as int);
        lemma_edges(rows as int, cell_y as int);
    }
    let x1: usize = if cell_x + 1 == GRID {
        cols
    } else {
        (cell_x + 1) * cell_w
    };
    let y1: usize = if cell_y + 1 == GRID {
        rows
    } else {
        (cell_y + 1) * cell_h
    };
    (cell_x * cell_w, cell_y * cell_h, x1, y1)
}

proof fn lemma_edges(side: int, cell: int)
    requires
        0 <= cell < GRID,
        side >= 0,
    ensures
        0 <= cell_edge(side, cell) <= cell_edge(side, cell + 1) <= side,
        (cell + 1) * (side / GRID as int) <= side,
        cell * (side / GRID as int) <= side,
{
    let w = side / 4;
    assert(4 * w <= side);
    assert(cell * w <= (cell + 1) * w <= 4 * w) by (nonlinear_arith)
        requires
            0 <= cell < 4,
            w >= 0,
    ;
    assert(0 <= cell * w) by (nonlinear_arith)
        requires
            0 <= cell,
            w >= 0,
    ;
}

/// Every place on a side is in just one cell.
pub proof fn cells_do_not_overlap(side: int, place: int)
    requires
        0 <= place < side,
    ensures
        exists|cell: int|
            0 <= cell < GRID && #[trigger] cell_edge(side, cell) <= place < cell_edge(
                side,
                cell + 1,
            ),
        forall|a: int, b: int|
            0 <= a < b < GRID ==> #[trigger] cell_edge(side, a + 1) <= #[trigger] cell_edge(side, b),
{
    let w = side / 4;
    assert(cell_edge(side, 0) == 0 && cell_edge(side, 1) == w && cell_edge(side, 2) == 2 * w
        && cell_edge(side, 3) == 3 * w && cell_edge(side, 4) == side);
    let cell = if place < w {
        0int
    } else if place < 2 * w {
        1int
    } else if place < 3 * w {
        2int
    } else {
        3int
    };
    assert(cell_edge(side, cell) <= place < cell_edge(side, cell + 1));
    assert forall|a: int, b: int| 0 <= a < b < GRID implies #[trigger] cell_edge(side, a + 1)
        <= #[trigger] cell_edge(side, b) by {
        assert((a + 1) * w <= b * w) by (nonlinear_arith)
            requires
                a + 1 <= b,
                w >= 0,
        ;
    }
}

/// How many of the first places of a row, from `x0` on, have an edge.
pub open spec fn row_edges(edges: Seq<u8>, cols: int, y: int, x0: int, x: int) -> nat
    decreases x - x0,
{
    if x <= x0 {
        0
    } else {
        let before = row_edges(edges, cols, y, x0, x - 1);
        if edges[y * cols + x - 1] != 0 {
            before + 1
        } else {
            before
        }
    }
}

/// How many of the places of the first rows, from `y0` on, have an edge.
pub open spec fn area_edges(edges: Seq<u8>, cols: int, x0: int, x1: int, y0: int, y: int) -> nat
    decreases y - y0,
{
    if y <= y0 {
        0
    } else {
        area_edges(edges, cols, x0, x1, y0, y - 1) + row_edges(edges, cols, y - 1, x0, x1)
    }
}

proof fn lemma_row_bound(edges: Seq<u8>, cols: int, y: int, x0: int, x: int)
    ensures
        row_edges(edges, cols, y, x0, x) <= (if x > x0 {
            x - x0
        } else {
            0
        }),
    decreases x - x0,
{
    if x > x0 {
        lemma_row_bound(edges, cols, y, x0, x - 1);
    }
}

proof fn lemma_area_bound(edges: Seq<u8>, cols: int, x0: int, x1: int, y0: int, y: int)
    requires
        x0 <= x1,
        y0 <= y,
    ensures
        area_edges(edges, cols, x0, x1, y0, y) <= (x1 - x0) * (y - y0),
    decreases y - y0,
{
    if y > y0 {
        lemma_area_bound(edges, cols, x0, x1, y0, y - 1);
        lemma_row_bound(edges, cols, y - 1, x0, x1);
        assert((x1 - x0) * (y - y0) == (x1 - x0) * (y - 1 - y0) + (x1 - x0)) by (nonlinear_arith);
    } else {
        assert((x1 - x0) * (y - y0) == 0) by (nonlinear_arith)
            requires
                y == y0,
        ;
    }
}

/// Counts the places with an edge in a rectangle, and all its places, in single
/// precision.
pub fn edge_density(
    edges: &Vec<u8>,
    cols: usize,
    rows: usize,
    x0: usize,
    y0: usize,
    x1: usize,
    y1: usize,
) -> (counts: (u32, u32))
    requires
        edges@.len() == cols * rows,
        x0 <= x1 <= cols,
        y0 <= y1 <= rows,
    ensures
        counts.0 == counted(
            area_edges(edges@, cols as int, x0 as int, x1 as int, y0 as int, y1 as int),
        ),
        counts.1 == counted(((x1 - x0) * (y1 - y0)) as nat),
{
    let len: usize = edges.len();
    let mut edge_pixels: u32 = 0;
    let mut count: u32 = 0;
    let mut y: usize = y0;
    proof {
        assert((x1 - x0) * (y0 - y0) == 0) by (nonlinear_arith);
    }
    while y < y1
        invariant
            y0 <= y <= y1 <= rows,
            x0 <= x1 <= cols,
            len == edges@.len(),
            len == cols * rows,
            edge_pixels == counted(
                area_edges(edges@, cols as int, x0 as int, x1 as int, y0 as int, y as int),
            ),
            count == counted(((x1 - x0) * (y - y0)) as nat),
        decreases y1 - y,
    {
        let ghost base = area_edges(
            edges@,
            cols as int,
            x0 as int,
            x1 as int,
            y0 as int,
            y as int,
        );
        let ghost places = (x1 - x0) * (y - y0);
        assert(places >= 0) by (nonlinear_arith)
            requires
                places == (x1 - x0) * (y - y0),
                x1 >= x0,
                y >= y0,
        ;
        let mut x: usize = x0;
        while x < x1
            invariant
                x0 <= x <= x1 <= cols,
                y < rows,
                len == edges@.len(),
                len == cols * rows,
                places >= 0,
                edge_pixels == counted(
                    base + row_edges(edges@, cols as int, y as int, x0 as int, x as int),
                ),
                count == counted((places + (x - x0)) as nat),
            decreases x1 - x,
        {
            assert(0 <= y * cols && y * cols + x < len) by (nonlinear_arith)
                requires
                    y < rows,
                    x < cols,
                    len == cols * rows,
            ;
            let at: usize = y * cols + x;
            if edges[at] != 0 && edge_pixels < COUNT_LIMIT {
                edge_pixels += 1;
            }
            if count < COUNT_LIMIT {
                count += 1;
            }
            x += 1;
        }
        assert((x1 - x0) * (y + 1 - y0) == places + (x1 - x0)) by (nonlinear_arith)
            requires
                places == (x1 - x0) * (y - y0),
        ;
        y += 1;
    }
    (edge_pixels, count)
}

/// No more places have an edge than there are places.
pub proof fn edges_are_a_part(edges: Seq<u8>, cols: int, x0: int, x1: int, y0: int, y1: int)
    requires
        x0 <= x1,
        y0 <= y1,
    ensures
        counted(area_edges(edges, cols, x0, x1, y0, y1)) <= counted(
            ((x1 - x0) * (y1 - y0)) as nat,
        ),
{
    lemma_area_bound(edges, cols, x0, x1, y0, y1);
    assert((x1 - x0) * (y1 - y0) >= 0) by (nonlinear_arith)
        requires
            x0 <= x1,
            y0 <= y1,
    ;
}

/// The cosine similarity of two vectors of length one, whose products add up to `dot`.
pub open spec fn similarity_of(a: Seq<Score>, b: Seq<Score>, dot: Score) -> Score {
    if a.len() != b.len() || a.len() == 0 {
        Score { bits: 0 }
    } else {
        dot.between(Score { bits: 0xbf80_0000 }, Score { bits: 0x3f80_0000 })
    }
}

/// A similarity is never below -1 nor above 1, and lies from -1 to 1 where the products add
/// up to a number at all; it is zero for vectors that cannot be compared, and the same both
/// ways, since the same products add up.
pub proof fn similarities_are_mutual(a: Seq<Score>, b: Seq<Score>, dot: Score)
    ensures
        similarity_of(a, b, dot) == similarity_of(b, a, dot),
        !similarity_of(a, b, dot).lt(Score { bits: 0xbf80_0000 }),
        !(Score { bits: 0x3f80_0000 }).lt(similarity_of(a, b, dot)),
        !dot.nan() ==> !similarity_of(a, b, dot).nan() && similarity_of(a, b, dot).ge(
            Score { bits: 0xbf80_0000 },
        ) && (Score { bits: 0x3f80_0000 }).ge(similarity_of(a, b, dot)),
        a.len() != b.len() || a.len() == 0 ==> similarity_of(a, b, dot) == (Score { bits: 0 }),
{
}

/// The cosine similarity of two vectors of length one, whose products add up to
/// `dot`: kept from -1 to 1, and zero where the vectors cannot be compared.
pub fn cosine_similarity(a: &[Score], b: &[Score], dot: Score) -> (similarity: Score)
    ensures
        similarity == similarity_of(a@, b@, dot),
{
    if a.len() != b.len() || a.len() == 0 {
        return Score { bits: 0 };
    }
    dot.clamp_to(Score { bits: 0xbf80_0000 }, Score { bits: 0x3f80_0000 })
}

/// The bytes of a number's pattern, the lowest one first.
pub open spec fn low_byte_first(bits: u32) -> Seq<u8> {
    seq![
        (bits % 0x100) as u8,
        (bits / 0x100 % 0x100) as u8,
        (bits / 0x1_0000 % 0x100) as u8,
        (bits / 0x100_0000) as u8,
    ]
}

/// The number whose pattern has four given bytes, the lowest one first.
pub open spec fn from_low_byte_first(bytes: Seq<u8>) -> Score {
    Score {
        bits: (bytes[0] + 0x100 * bytes[1] + 0x1_0000 * bytes[2] + 0x100_0000 * bytes[3]) as u32,
    }
}

/// An embedding as it is stored: four bytes for each of its numbers.
pub open spec fn blob_of(embedding: Seq<Score>) -> Seq<u8> {
    Seq::new(
        4 * embedding.len(),
        |i: int| low_byte_first(embedding[i / 4].bits)[i % 4],
    )
}

/// The embedding in stored bytes. Bytes that are left over at the end are no number.
pub open spec fn embedding_in(blob: Seq<u8>) -> Seq<Score> {
    Seq::new(
        blob.len() / 4,
        |i: int| from_low_byte_first(blob.subrange(4 * i, 4 * i + 4)),
    )
}

/// Writes an embedding down as the bytes that are stored.
pub fn embedding_blob(embedding: &[Score]) -> (blob: Vec<u8>)
    ensures
        blob@ == blob_of(embedding@),
{
    let mut blob: Vec<u8> = Vec::new();
    let mut i: usize = 0;
    while i < embedding.len()
        invariant
            i <= embedding@.len(),
            blob@ == blob_of(embedding@.take(i as int)),
        decreases embedding@.len() - i,
    {
        let bits: u32 = embedding[i].bits;
        blob.push((bits % 0x100) as u8);
        blob.push((bits / 0x100 % 0x100) as u8);
        blob.push((bits / 0x1_0000 % 0x100) as u8);
        blob.push((bits / 0x100_0000) as u8);
        assert(blob@ =~= blob_of(embedding@.take(i as int)) + low_byte_first(bits));
        assert(blob@ =~= blob_of(embedding@.take(i + 1)));
        i += 1;
    }
    assert(embedding@.take(i as int) =~= embedding@);
    blob
}

/// Reads an embedding from the bytes that are stored.
pub fn embedding_from_blob(blob: &[u8]) -> (embedding: Vec<Score>)
    ensures
        embedding@ == embedding_in(blob@),
{
    let mut embedding: Vec<Score> = Vec::new();
    let count: usize = blob.len() / 4;
    let mut i: usize = 0;
    while i < count
        invariant
            count == blob@.len() / 4,
            blob@.len() <= usize::MAX,
            i <= count,
            embedding@ == embedding_in(blob@).take(i as int),
        decreases count - i,
    {
        let start: usize = 4 * i;
        let bits: u32 = blob[start] as u32 + 0x100 * (blob[start + 1] as u32) + 0x1_0000 * (
        blob[start + 2] as u32) + 0x100_0000 * (blob[start + 3] as u32);
        embedding.push(Score { bits });
        assert(embedding@ =~= embedding_in(blob@).take(i + 1));
        i += 1;
    }
    assert(embedding_in(blob@).take(i as int) =~= embedding_in(blob@));
    embedding
}

proof fn lemma_bytes_make_up_bits(bits: u32)
    ensures
        from_low_byte_first(low_byte_first(bits)) == (Score { bits }),
{
    let b0: u32 = bits % 0x100;
    let b1: u32 = bits / 0x100 % 0x100;
    let b2: u32 = bits / 0x1_0000 % 0x100;
    let b3: u32 = bits / 0x100_0000;
    assert(b0 < 0x100 && b1 < 0x100 && b2 < 0x100 && b3 < 0x100 && b0 + 0x100 * b1 + 0x1_0000 * b2
        + 0x100_0000 * b3 == bits) by (bit_vector)
        requires
            b0 == bits % 0x100,
            b1 == bits / 0x100 % 0x100,
            b2 == bits / 0x1_0000 % 0x100,
            b3 == bits / 0x100_0000,
    ;
    let bytes = low_byte_first(bits);
    assert(bytes[0] == b0 && bytes[1] == b1 && bytes[2] == b2 && bytes[3] == b3);
}

proof fn lemma_blob_part(embedding: Seq<Score>, i: int)
    requires
        0 <= i < embedding.len(),
    ensures
        blob_of(embedding).subrange(4 * i, 4 * i + 4) == low_byte_first(embedding[i].bits),
{
    let part = blob_of(embedding).subrange(4 * i, 4 * i + 4);
    assert forall|k: int| 0 <= k < 4 implies part[k] == low_byte_first(embedding[i].bits)[k] by {
        assert((4 * i + k) / 4 == i && (4 * i + k) % 4 == k);
    }
    assert(part =~= low_byte_first(embedding[i].bits));
}

/// An embedding that was stored is read back as it was.
pub proof fn stored_embeddings_are_read_back(embedding: Seq<Score>)
    ensures
        embedding_in(blob_of(embedding)) == embedding,
{
    let blob = blob_of(embedding);
    assert forall|i: int| 0 <= i < embedding.len() implies embedding_in(blob)[i]
        == embedding[i] by {
        lemma_blob_part(embedding, i);
        lemma_bytes_make_up_bits(embedding[i].bits);
    }
    assert(embedding_in(blob) =~= embedding);
}

/// A setting names a backend by `opencv` or `onnx`, in whatever case and with whatever space
/// around it, and by nothing else.
pub proof fn backends_are_named(value: Seq<char>, other: Seq<char>)
    ensures
        named_backend(value) == Some(VisualEmbeddingBackend::OpenCv) <==> text::lowered(
            text::trimmed(value),
        ) == "opencv"@,
        named_backend(value) == Some(VisualEmbeddingBackend::Onnx) <==> text::lowered(
            text::trimmed(value),
        ) == "onnx"@,
        text::lowered(text::trimmed(value)) == text::lowered(text::trimmed(other))
            ==> named_backend(value) == named_backend(other),
        backend_message(value) == "unsupported visual embedding backend '"@ + text::lowered(
            text::trimmed(value),
        ) + "'"@,
{
    reveal_strlit("opencv");
    reveal_strlit("onnx");
    assert("opencv"@.len() == 6);
    assert("onnx"@.len() == 4);
}

/// A model has the name that it was given. Otherwise the built-in one has its own, with the
/// size behind it unless that is 256, and one from a file that of the file and the size.
pub proof fn models_are_named(config: VisualEmbeddingConfig)
    ensures
        config.model_name matches Some(name) && name@.len() > 0 ==> config.name()
            == config.model_name->0@,
        !(config.model_name matches Some(name) && name@.len() > 0) ==> {
            let size = text::decimal(config.input_size as nat);
            match config.backend {
                VisualEmbeddingBackend::OpenCv => {
                    &&& config.input_size == 256 ==> config.name() == OPENCV_MODEL_NAME@
                    &&& config.input_size != 256 ==> config.name() == OPENCV_MODEL_NAME@ + "_"@
                        + size + "px"@
                },
                VisualEmbeddingBackend::Onnx => match config.model_path {
                    Some(path) => match paths::file_stem_text(path@) {
                        Some(stem) => config.name() == "onnx_"@ + stem + "_"@ + size + "px"@,
                        None => config.name() == "onnx_"@ + "model"@ + "_"@ + size + "px"@,
                    },
                    None => config.name() == "onnx_"@ + "model"@ + "_"@ + size + "px"@,
                },
            }
        },
{
}

/// A start or a length that fits into the image stays as it is; one that does not comes as
/// near as the image allows, and a length is never empty.
pub proof fn rectangles_come_as_near_as_they_can(at: int, length: int, side: int, left: int)
    requires
        side > 0,
        left > 0,
    ensures
        0 <= at < side ==> start_in(at, side) == at,
        at < 0 ==> start_in(at, side) == 0,
        at >= side ==> start_in(at, side) == side - 1,
        1 <= length <= left ==> length_in(length, left) == length,
        length < 1 ==> length_in(length, left) == 1,
        length > left ==> length_in(length, left) == left,
{
}

/// A rectangle that lies in the image is taken as it is, and any other one is brought into
/// it.
pub proof fn rectangles_in_the_image_are_kept(cols: i32, rows: i32, wished: CropBox)
    requires
        cols > 0,
        rows > 0,
    ensures
        wished.inside(cols, rows) ==> proxy_box(cols, rows, wished) == wished,
        proxy_box(cols, rows, wished).inside(cols, rows),
        wished.inside(cols, rows) <==> wished.x >= 0 && wished.y >= 0 && wished.w > 0 && wished.h
            > 0 && wished.x + wished.w <= cols && wished.y + wished.h <= rows,
{
}

/// A shape asks for its colors one after the other where its second dimension is three, or is
/// open and the fourth is not three; for its pixels one after the other where the fourth is
/// three and the second is not. Any other shape is none of a picture.
pub proof fn shapes_tell_the_layout(shape: Seq<i64>)
    ensures
        shape_layout(shape) == Some(OnnxInputLayout::Nchw) <==> shape.len() == 4 && (shape[1] == 3
            || (shape[1] <= 0 && shape[3] != 3)),
        shape_layout(shape) == Some(OnnxInputLayout::Nhwc) <==> shape.len() == 4 && shape[1] != 3
            && shape[3] == 3,
        shape_layout(shape) is None <==> shape.len() != 4 || (shape[1] > 0 && shape[1] != 3
            && shape[3] != 3),
{
}

/// Color by color, the next pixel stands behind a pixel and the next color behind all pixels;
/// pixel by pixel, the next color stands behind a color and the next pixel behind all three.
pub proof fn values_stand_in_the_order_of_the_layout(pixels: int, pixel: int, channel: int)
    ensures
        tensor_index(OnnxInputLayout::Nchw, pixels, 0, 0) == 0,
        tensor_index(OnnxInputLayout::Nchw, pixels, pixel + 1, channel) == tensor_index(
            OnnxInputLayout::Nchw,
            pixels,
            pixel,
            channel,
        ) + 1,
        tensor_index(OnnxInputLayout::Nchw, pixels, pixel, channel + 1) == tensor_index(
            OnnxInputLayout::Nchw,
            pixels,
            pixel,
            channel,
        ) + pixels,
        tensor_index(OnnxInputLayout::Nhwc, pixels, 0, 0) == 0,
        tensor_index(OnnxInputLayout::Nhwc, pixels, pixel + 1, channel) == tensor_index(
            OnnxInputLayout::Nhwc,
            pixels,
            pixel,
            channel,
        ) + 3,
        tensor_index(OnnxInputLayout::Nhwc, pixels, pixel, channel + 1) == tensor_index(
            OnnxInputLayout::Nhwc,
            pixels,
            pixel,
            channel,
        ) + 1,
{
    assert((channel + 1) * pixels == channel * pixels + pixels) by (nonlinear_arith);
    assert(0 * pixels == 0) by (nonlinear_arith);
}

/// The product of some dimensions is that of the first ones times that of the rest.
pub proof fn dimensions_multiply(a: Seq<i64>, b: Seq<i64>, n: i64)
    ensures
        product(a + b) == product(a) * product(b),
        product(seq![n]) == n,
        product(Seq::empty()) == 1,
    decreases b.len(),
{
    reveal_with_fuel(product, 2);
    assert(seq![n].drop_last() =~= Seq::<i64>::empty());
    if b.len() == 0 {
        assert(a + b =~= a);
    } else {
        dimensions_multiply(a, b.drop_last(), n);
        assert((a + b).drop_last() =~= a + b.drop_last());
        assert((a + b).last() == b.last());
        let p = product(a);
        let q = product(b.drop_last());
        let d = b.last() as int;
        assert((p * q) * d == p * (q * d)) by (nonlinear_arith);
    }
}

/// How many numbers an embedding has is the product of its dimensions, without a first one
/// that counts pictures, one or open. A shape with a dimension that is zero, or open anywhere
/// else, does not say.
pub proof fn shapes_tell_how_many_numbers(dims: Seq<i64>, bad: i64)
    requires
        forall|i: int| 0 <= i < dims.len() ==> #[trigger] dims[i] > 0,
        dims.len() > 0,
        bad <= 0,
    ensures
        static_dim(seq![1i64] + dims) == Some(product(dims)),
        static_dim(seq![-1i64] + dims) == Some(product(dims)),
        dims[0] != 1 ==> static_dim(dims) == Some(product(dims)),
        static_dim(dims.push(bad)) is None,
        static_dim(Seq::empty()) is None,
{
    let one = seq![1i64] + dims;
    let open = seq![-1i64] + dims;
    assert(one.skip(1) =~= dims);
    assert(open.skip(1) =~= dims);
    assert forall|i: int| 0 <= i < one.len() implies #[trigger] one[i] > 0 by {
        if i > 0 {
            assert(one[i] == dims[i - 1]);
        }
    }
    assert forall|i: int| 0 <= i < open.len() implies #[trigger] open[i] > 0 || open[i] == -1 by {
        if i > 0 {
            assert(open[i] == dims[i - 1]);
        }
    }
    let worse = dims.push(bad);
    let own = own_dims(worse);
    assert(own.len() > 0 && own[own.len() - 1] == bad);
}

/// Numbers are listed in brackets, with a comma and a space between any two.
pub proof fn numbers_are_listed(numbers: Seq<i64>, more: Seq<i64>, n: i64)
    ensures
        listed(Seq::empty()) == seq!['[', ']'],
        listed(seq![n]) == seq!['['] + text::signed_decimal(n as int) + seq![']'],
        numbers.len() > 0 && more.len() > 0 ==> listed(numbers + more) == listed(
            numbers,
        ).drop_last() + seq![',', ' '] + listed(more).drop_first(),
{
    reveal_strlit("[");
    reveal_strlit("]");
    reveal_strlit(", ");
    assert("["@ =~= seq!['[']);
    assert("]"@ =~= seq![']']);
    assert(", "@ =~= seq![',', ' ']);
    let written = |list: Seq<i64>|
        Seq::new(list.len(), |i: int| text::signed_decimal(list[i] as int));
    assert(listed(Seq::empty()) =~= seq!['[', ']']);
    assert(written(seq![n]) =~= seq![text::signed_decimal(n as int)]);
    assert(listed(seq![n]) =~= seq!['['] + text::signed_decimal(n as int) + seq![']']);
    if numbers.len() > 0 && more.len() > 0 {
        text::separators_stand_between(written(numbers), written(more), ", "@);
        assert(written(numbers + more) =~= written(numbers) + written(more));
        assert(listed(numbers + more) =~= "["@ + text::joined(written(numbers), ", "@) + ", "@
            + text::joined(written(more), ", "@) + "]"@);
        assert(listed(numbers).drop_last() =~= "["@ + text::joined(written(numbers), ", "@));
        assert(listed(more).drop_first() =~= text::joined(written(more), ", "@) + "]"@);
        assert(listed(numbers + more) =~= listed(numbers).drop_last() + seq![',', ' '] + listed(
            more,
        ).drop_first());
    }
}

/// A model can be used just when it has an input and an output, the first input is a tensor
/// of a picture, and both are of single-precision numbers.
pub proof fn models_need_pictures_and_numbers(inputs: Seq<OnnxTensor>, outputs: Seq<OnnxTensor>)
    ensures
        model_fault(inputs, outputs) is None <==> inputs.len() > 0 && outputs.len() > 0
            && inputs[0].is_float && outputs[0].is_float && (inputs[0].shape matches Some(shape)
            && shape_layout(shape@) is Some),
        inputs.len() == 0 ==> model_fault(inputs, outputs) == Some(
            "ONNX embedding model has no inputs"@,
        ),
        inputs.len() > 0 && inputs[0].shape is None ==> model_fault(inputs, outputs) == Some(
            "ONNX input '"@ + inputs[0].name@ + "' is not a tensor"@,
        ),
        inputs.len() > 0 && (inputs[0].shape matches Some(shape) && shape_layout(shape@) is None)
            ==> model_fault(inputs, outputs) == Some(
            "unsupported ONNX input shape for '"@ + inputs[0].name@ + "': "@ + listed(
                inputs[0].shape->0@,
            ) + "; expected NCHW or NHWC image tensor"@,
        ),
        inputs.len() > 0 && (inputs[0].shape matches Some(shape) && shape_layout(shape@) is Some)
            ==> {
            &&& !inputs[0].is_float ==> model_fault(inputs, outputs) == Some(
                "ONNX input '"@ + inputs[0].name@ + "' must be f32"@,
            )
            &&& inputs[0].is_float && outputs.len() == 0 ==> model_fault(inputs, outputs) == Some(
                "ONNX embedding model has no outputs"@,
            )
            &&& inputs[0].is_float && outputs.len() > 0 && !outputs[0].is_float ==> model_fault(
                inputs,
                outputs,
            ) == Some("ONNX output '"@ + outputs[0].name@ + "' must be f32"@)
        },
{
}

/// An output whose shape does not say how many numbers it has counts as having none.
pub proof fn open_outputs_have_no_dimension(shape: Option<Vec<i64>>)
    ensures
        shape is None ==> output_dim(shape) == 0,
        shape matches Some(s) ==> (static_dim(s@) is None ==> output_dim(shape) == 0) && (
        static_dim(s@) matches Some(n) ==> output_dim(shape) == n),
{
}

/// Counts go up to 16777216, above which single precision cannot count by ones. Hues are
/// counted in 16 bins, saturations and values in 8, and a picture has four cells across and
/// down; a model is never handed less than 32 pixels across.
pub proof fn counts_stop_at_single_precision(n: nat)
    ensures
        n <= 16777216 ==> counted(n) == n,
        n > 16777216 ==> counted(n) == 16777216,
        HUE_BINS == 16,
        TONE_BINS == 8,
        GRID == 4,
        MIN_INPUT_SIZE == 32,
{
}

/// The bins divide a range evenly: a value below the range is in the bin whose share of the
/// range it falls in, and one beyond it in the last bin.
pub proof fn bins_divide_the_range(value: u8, bins: usize, range: usize)
    requires
        bins > 0,
        range > 0,
    ensures
        0 <= bin_of(value, bins, range) < bins,
        value < range ==> bin_of(value, bins, range) * range <= value * bins < (bin_of(
            value,
            bins,
            range,
        ) + 1) * range,
        value >= range ==> bin_of(value, bins, range) == bins - 1,
{
    let v = value as int;
    let b = bins as int;
    let r = range as int;
    let all = v * b;
    let q = all / r;
    assert(all >= 0) by (nonlinear_arith)
        requires
            all == v * b,
            v >= 0,
            b > 0,
    ;
    vstd::arithmetic::div_mod::lemma_fundamental_div_mod(all, r);
    let m = all % r;
    assert(q >= 0) by (nonlinear_arith)
        requires
            all == r * q + m,
            0 <= m < r,
            all >= 0,
    ;
    if v < r {
        assert(q < b) by (nonlinear_arith)
            requires
                all == v * b,
                all == r * q + m,
                0 <= m,
                0 <= v < r,
                b > 0,
        ;
        assert(q * r <= all < (q + 1) * r) by (nonlinear_arith)
            requires
                all == r * q + m,
                0 <= m < r,
        ;
        assert(bin_of(value, bins, range) == q);
    } else {
        assert(q >= b) by (nonlinear_arith)
            requires
                all == v * b,
                all == r * q + m,
                0 <= m < r,
                v >= r,
                b > 0,
        ;
    }
}

/// One pixel more is counted once more in the bin of its value, and in no other.
pub proof fn pixels_are_counted_in_their_bins(
    values: Seq<u8>,
    channel: int,
    bins: usize,
    range: usize,
    bin: int,
    upto: nat,
)
    ensures
        bin_count(values, channel, bins, range, bin, 0) == 0,
        bin_count(values, channel, bins, range, bin, upto + 1) == bin_count(
            values,
            channel,
            bins,
            range,
            bin,
            upto,
        ) + (if bin == bin_of(values[3 * upto + channel], bins, range) {
            1nat
        } else {
            0
        }),
{
}

/// The first three cells of a side have a quarter of it each, rounded down, and the last one
/// has the rest.
pub proof fn cells_have_a_quarter_each(side: int)
    requires
        side >= 0,
    ensures
        cell_edge(side, 0) == 0,
        cell_edge(side, 1) == side / 4,
        cell_edge(side, 2) == 2 * (side / 4),
        cell_edge(side, 3) == 3 * (side / 4),
        cell_edge(side, 4) == side,
{
}

/// The edges of a rectangle are those of its upper and of its lower part together, those of a
/// row the ones of its left and of its right part, and a single place has one just when its
/// value is not zero.
pub proof fn edges_are_counted_place_by_place(
    edges: Seq<u8>,
    cols: int,
    x0: int,
    xm: int,
    x1: int,
    y0: int,
    ym: int,
    y1: int,
)
    requires
        x0 <= xm <= x1,
        y0 <= ym <= y1,
    ensures
        row_edges(edges, cols, y0, x0, x1) == row_edges(edges, cols, y0, x0, xm) + row_edges(
            edges,
            cols,
            y0,
            xm,
            x1,
        ),
        area_edges(edges, cols, x0, x1, y0, y1) == area_edges(edges, cols, x0, x1, y0, ym)
            + area_edges(edges, cols, x0, x1, ym, y1),
        area_edges(edges, cols, x0, x0 + 1, y0, y0 + 1) == (if edges[y0 * cols + x0] != 0 {
            1nat
        } else {
            0
        }),
        area_edges(edges, cols, x0, x1, y0, y0) == 0,
        row_edges(edges, cols, y0, x0, x0) == 0,
    decreases (x1 - xm) + (y1 - ym),
{
    reveal_with_fuel(row_edges, 2);
    reveal_with_fuel(area_edges, 2);
    if x1 > xm {
        edges_are_counted_place_by_place(edges, cols, x0, xm, x1 - 1, y0, ym, y1);
    }
    if y1 > ym {
        edges_are_counted_place_by_place(edges, cols, x0, xm, x1, y0, ym, y1 - 1);
    }
}

/// Where vectors can be compared, a sum of products from -1 to 1 is the similarity, and one
/// outside is brought to the nearer end.
pub proof fn similarities_are_the_products(a: Seq<Score>, b: Seq<Score>, dot: Score)
    requires
        a.len() == b.len(),
        a.len() > 0,
        !dot.nan(),
    ensures
        ({
            let low = Score { bits: 0xbf80_0000 };
            let high = Score { bits: 0x3f80_0000 };
            &&& low.value() <= dot.value() <= high.value() ==> similarity_of(a, b, dot) == dot
            &&& dot.value() < low.value() ==> similarity_of(a, b, dot) == low
            &&& dot.value() > high.value() ==> similarity_of(a, b, dot) == high
        }),
{
    crate::score::numbers_compare_by_their_bits(
        Score { bits: 0xbf80_0000 },
        Score { bits: 0x3f80_0000 },
    );
}

/// Each number of an embedding is stored in four bytes, the lowest one first; what is read
/// from stored bytes takes them in the same order, and leaves out what is left over.
pub proof fn numbers_are_stored_low_byte_first(
    embedding: Seq<Score>,
    i: int,
    blob: Seq<u8>,
    k: int,
)
    requires
        0 <= i < embedding.len(),
        0 <= k < blob.len() / 4,
    ensures
        blob_of(embedding).len() == 4 * embedding.len(),
        embedding[i].bits == blob_of(embedding)[4 * i] + 0x100 * blob_of(embedding)[4 * i + 1]
            + 0x1_0000 * blob_of(embedding)[4 * i + 2] + 0x100_0000 * blob_of(embedding)[4 * i + 3],
        embedding_in(blob).len() == blob.len() / 4,
        embedding_in(blob)[k].bits == blob[4 * k] + 0x100 * blob[4 * k + 1] + 0x1_0000 * blob[4 * k
            + 2] + 0x100_0000 * blob[4 * k + 3],
{
    lemma_blob_part(embedding, i);
    lemma_bytes_make_up_bits(embedding[i].bits);
    let part = blob_of(embedding).subrange(4 * i, 4 * i + 4);
    assert(part[0] == blob_of(embedding)[4 * i]);
    assert(part[1] == blob_of(embedding)[4 * i + 1]);
    assert(part[2] == blob_of(embedding)[4 * i + 2]);
    assert(part[3] == blob_of(embedding)[4 * i + 3]);
}

/// The model that is used unless another one is asked for is the built-in one.
pub proof fn the_built_in_model_is_the_default(config: VisualEmbeddingConfig)
    requires
        config.model_name is None,
        config.backend == VisualEmbeddingBackend::OpenCv,
        config.input_size == 256,
    ensures
        config.name() == "opencv_color_texture_v1"@,
        config.name() == MODEL_NAME@,
{
}

}
