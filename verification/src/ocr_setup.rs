//! Setting up text recognition: the model files, the devices it may run on, how
//! many threads it uses, and the template of the event's sticker.

use crate::event_config::NormalizedRect;
use crate::paths;
use crate::paths::FilePath;
use crate::template_search::GrayImage;
use crate::text;
use vstd::prelude::*;

verus! {

/// Whether text recognition was set up, and whether that succeeded.
#[derive(Clone, Copy, Debug, PartialEq, Eq, Structural)]
pub enum EngineState {
    NotTried,
    Ready,
    Unavailable,
}

/// Whether text can be recognized.
pub fn is_ocr_available(engine: EngineState) -> (available: bool)
    ensures
        available == (engine == EngineState::Ready),
{
    match engine {
        EngineState::Ready => true,
        _ => false,
    }
}

/// What becomes of text recognition when it is asked to be set up, and an attempt to do so
/// would come out one way or the other: only the first attempt counts.
pub open spec fn after_attempt(engine: EngineState, succeeded: bool) -> EngineState {
    match engine {
        EngineState::NotTried => if succeeded {
            EngineState::Ready
        } else {
            EngineState::Unavailable
        },
        other => other,
    }
}

/// Takes note of an attempt to set up text recognition, unless there was one before, and
/// tells whether it can be used.
pub fn init_ocr(engine: EngineState, succeeded: bool) -> (outcome: (
    EngineState,
    Result<(), String>,
))
    ensures
        outcome.0 == after_attempt(engine, succeeded),
        match outcome.1 {
            Ok(_) => after_attempt(engine, succeeded) == EngineState::Ready,
            Err(why) => after_attempt(engine, succeeded) == EngineState::Unavailable && why@
                == "OCR engine initialization failed"@,
        },
{
    let next = match engine {
        EngineState::NotTried => if succeeded {
            EngineState::Ready
        } else {
            EngineState::Unavailable
        },
        other => other,
    };
    if is_ocr_available(next) {
        (next, Ok(()))
    } else {
        (next, Err(text::owned("OCR engine initialization failed")))
    }
}

/// The first attempt to set up text recognition is final: whatever a later one would come
/// to, the state and so the answer stay the same.
pub proof fn setup_is_final(engine: EngineState, first: bool, later: bool)
    ensures
        after_attempt(after_attempt(engine, first), later) == after_attempt(engine, first),
        after_attempt(engine, first) != EngineState::NotTried,
        engine != EngineState::NotTried ==> after_attempt(engine, first) == engine,
{
}

/// What to do after an attempt to set up text recognition.
#[derive(Clone, Copy, Debug, PartialEq, Eq, Structural)]
pub enum SetupStep {
    /// It is ready.
    Done,
    /// Try once more, on the processor.
    RetryOnCpu,
    /// It cannot be used.
    GiveUp,
}

/// What follows an attempt on a device: only an attempt on another device than
/// the processor is followed by a second one.
pub fn after_setup(provider_label: &str, succeeded: bool, is_retry: bool) -> (step: SetupStep)
    ensures
        step == (if succeeded {
            SetupStep::Done
        } else if !is_retry && text::lowered(provider_label@) != "cpu"@ {
            SetupStep::RetryOnCpu
        } else {
            SetupStep::GiveUp
        }),
{
    if succeeded {
        return SetupStep::Done;
    }
    let label = text::to_lower(provider_label);
    if !is_retry && !text::same_text(label.as_str(), "cpu") {
        SetupStep::RetryOnCpu
    } else {
        SetupStep::GiveUp
    }
}

/// A device that text recognition may run on.
#[derive(Debug)]
pub enum Provider {
    Cpu,
    Cuda { device_id: i32 },
    DirectMl { device_id: i32 },
    OpenVino { device_type: Option<String> },
    TensorRt { device_id: i32 },
    CoreMl,
    WebGpu,
}

/// A device, without what it is told.
#[derive(Clone, Copy, Debug, PartialEq, Eq, Structural)]
pub enum ProviderKind {
    Cpu,
    Cuda,
    DirectMl,
    OpenVino,
    TensorRt,
    CoreMl,
    WebGpu,
}

/// The device that a name stands for, where it stands for one.
pub open spec fn kind_named(name: Seq<char>) -> Option<ProviderKind> {
    if name == "cpu"@ {
        Some(ProviderKind::Cpu)
    } else if name == "cuda"@ || name == "gpu"@ {
        Some(ProviderKind::Cuda)
    } else if name == "directml"@ || name == "dml"@ {
        Some(ProviderKind::DirectMl)
    } else if name == "openvino"@ {
        Some(ProviderKind::OpenVino)
    } else if name == "tensorrt"@ || name == "trt"@ {
        Some(ProviderKind::TensorRt)
    } else if name == "coreml"@ {
        Some(ProviderKind::CoreMl)
    } else if name == "webgpu"@ {
        Some(ProviderKind::WebGpu)
    } else {
        None
    }
}

fn find_kind(name: &str) -> (kind: Option<ProviderKind>)
    ensures
        kind == kind_named(name@),
{
    if text::same_text(name, "cpu") {
        Some(ProviderKind::Cpu)
    } else if text::same_text(name, "cuda") || text::same_text(name, "gpu") {
        Some(ProviderKind::Cuda)
    } else if text::same_text(name, "directml") || text::same_text(name, "dml") {
        Some(ProviderKind::DirectMl)
    } else if text::same_text(name, "openvino") {
        Some(ProviderKind::OpenVino)
    } else if text::same_text(name, "tensorrt") || text::same_text(name, "trt") {
        Some(ProviderKind::TensorRt)
    } else if text::same_text(name, "coreml") {
        Some(ProviderKind::CoreMl)
    } else if text::same_text(name, "webgpu") {
        Some(ProviderKind::WebGpu)
    } else {
        None
    }
}

/// The name that stands before the first colon, without the space around it.
pub open spec fn device_name(device: Seq<char>) -> Seq<char> {
    text::trimmed(text::before_first(device, ':'))
}

/// What stands between the first colon and the second, without the space around it.
pub open spec fn device_argument(device: Seq<char>) -> Option<Seq<char>> {
    match text::after_first(device, ':') {
        Some(rest) => Some(text::trimmed(text::before_first(rest, ':'))),
        None => None,
    }
}

/// The number of the device that is meant: the argument, where it is a number.
pub open spec fn device_number(argument: Option<Seq<char>>) -> i32 {
    match argument {
        Some(a) => match text::read_i32(a) {
            Some(n) => n as i32,
            None => 0,
        },
        None => 0,
    }
}

/// The first device is the one that is named.
pub open spec fn is_provider(
    provider: Provider,
    kind: ProviderKind,
    argument: Option<Seq<char>>,
) -> bool {
    match kind {
        ProviderKind::Cpu => provider is Cpu,
        ProviderKind::Cuda => provider == (Provider::Cuda { device_id: device_number(argument) }),
        ProviderKind::DirectMl => provider == (Provider::DirectMl {
            device_id: device_number(argument),
        }),
        ProviderKind::OpenVino => provider matches Provider::OpenVino { device_type }
            && text::optional_text(device_type) == argument,
        ProviderKind::TensorRt => provider == (Provider::TensorRt {
            device_id: device_number(argument),
        }),
        ProviderKind::CoreMl => provider is CoreMl,
        ProviderKind::WebGpu => provider is WebGpu,
    }
}

/// The devices to try, in order, and whether the name was one that is known.
#[derive(Debug)]
pub struct ProviderList {
    pub providers: Vec<Provider>,
    pub known: bool,
}

/// Reads which device is asked for, as `name` or `name:argument`. After any other
/// device the processor is tried; a name that is not known stands for it alone.
pub fn parse_execution_providers(device: &str) -> (list: ProviderList)
    ensures
        list.known == (kind_named(device_name(device@)) is Some),
        ({
            let providers = list.providers@;
            match kind_named(device_name(device@)) {
                None | Some(ProviderKind::Cpu) => providers.len() == 1 && providers[0] is Cpu,
                Some(kind) => providers.len() == 2 && is_provider(
                    providers[0],
                    kind,
                    device_argument(device@),
                ) && providers[1] is Cpu,
            }
        }),
{
    let chars = text::chars_of(device);
    let (head, rest) = text::split_first(chars.as_slice(), ':');
    let name = text::trim_chars(head.as_slice());
    let name = text::string_of(name.as_slice());
    let argument = match rest {
        Some(rest) => {
            let (second, _) = text::split_first(rest.as_slice(), ':');
            let trimmed = text::trim_chars(second.as_slice());
            Some(text::string_of(trimmed.as_slice()))
        },
        None => None,
    };
    let device_id: i32 = match &argument {
        Some(a) => match text::parse_i32(a.as_str()) {
            Some(n) => n,
            None => 0,
        },
        None => 0,
    };
    let mut providers: Vec<Provider> = Vec::new();
    let kind = find_kind(name.as_str());
    match kind {
        None => {},
        Some(ProviderKind::Cpu) => {},
        Some(ProviderKind::Cuda) => providers.push(Provider::Cuda { device_id }),
        Some(ProviderKind::DirectMl) => providers.push(Provider::DirectMl { device_id }),
        Some(ProviderKind::OpenVino) => providers.push(
            Provider::OpenVino { device_type: argument },
        ),
        Some(ProviderKind::TensorRt) => providers.push(Provider::TensorRt { device_id }),
        Some(ProviderKind::CoreMl) => providers.push(Provider::CoreMl),
        Some(ProviderKind::WebGpu) => providers.push(Provider::WebGpu),
    }
    providers.push(Provider::Cpu);
    ProviderList { providers, known: kind.is_some() }
}

/// The device that is asked for: the setting in lower case and without the space
/// around it, or the processor.
pub fn requested_device(setting: Option<&str>) -> (device: String)
    ensures
        device@ == (match setting {
            Some(s) => if text::trimmed(s@).len() > 0 {
                text::lowered(text::trimmed(s@))
            } else {
                "cpu"@
            },
            None => "cpu"@,
        }),
{
    match setting {
        Some(s) => {
            let trimmed = text::trim(s);
            if trimmed.as_str().is_empty() {
                text::owned("cpu")
            } else {
                text::to_lower(trimmed.as_str())
            }
        },
        None => text::owned("cpu"),
    }
}

/// The word for a device.
pub open spec fn label_of(provider: Provider) -> Seq<char> {
    match provider {
        Provider::Cpu => "cpu"@,
        Provider::Cuda { .. } => "cuda"@,
        Provider::DirectMl { .. } => "directml"@,
        Provider::OpenVino { .. } => "openvino"@,
        Provider::TensorRt { .. } => "tensorrt"@,
        Provider::CoreMl => "coreml"@,
        Provider::WebGpu => "webgpu"@,
    }
}

/// The word for a device.
pub fn ort_provider_label(provider: &Provider) -> (label: String)
    ensures
        label@ == label_of(*provider),
{
    match provider {
        Provider::Cpu => text::owned("cpu"),
        Provider::Cuda { .. } => text::owned("cuda"),
        Provider::DirectMl { .. } => text::owned("directml"),
        Provider::OpenVino { .. } => text::owned("openvino"),
        Provider::TensorRt { .. } => text::owned("tensorrt"),
        Provider::CoreMl => text::owned("coreml"),
        Provider::WebGpu => text::owned("webgpu"),
    }
}

/// How many threads one recognition uses: the setting, where it is a number above
/// zero; otherwise as many as the machine runs at once, from one to eight.
pub fn ocr_intra_threads(setting: Option<&str>, available: usize) -> (threads: usize)
    ensures
        threads == (match setting {
            Some(s) => match text::read_unsigned(text::trimmed(s@), usize::MAX as nat) {
                Some(n) => if n > 0 {
                    n as usize
                } else {
                    default_threads(available)
                },
                None => default_threads(available),
            },
            None => default_threads(available),
        }),
        threads >= 1,
{
    let default: usize = if available < 1 {
        1
    } else if available > 8 {
        8
    } else {
        available
    };
    match setting {
        Some(s) => {
            let trimmed = text::trim(s);
            match text::parse_unsigned(trimmed.as_str(), usize::MAX as u64) {
                Some(n) => if n > 0 {
                    n as usize
                } else {
                    default
                },
                None => default,
            }
        },
        None => default,
    }
}

/// As many threads as the machine runs at once, from one to eight.
pub open spec fn default_threads(available: usize) -> usize {
    if available < 1 {
        1
    } else if available > 8 {
        8
    } else {
        available
    }
}

/// The files of the models that recognition uses.
#[derive(Debug)]
pub struct ModelPaths {
    pub det_model: FilePath,
    pub rec_model: FilePath,
    pub dictionary: FilePath,
    pub text_line_ori_model: Option<FilePath>,
    pub doc_ori_model: Option<FilePath>,
}

/// The first of some names that is among those that are there.
pub open spec fn first_present(names: Seq<Seq<char>>, present: Seq<Seq<char>>) -> Option<Seq<char>>
    decreases names.len(),
{
    if names.len() == 0 {
        None
    } else if present.contains(names[0]) {
        Some(names[0])
    } else {
        first_present(names.drop_first(), present)
    }
}

fn is_present(present: &Vec<String>, name: &str) -> (is: bool)
    ensures
        is == text::texts(present@).contains(name@),
{
    let mut i: usize = 0;
    while i < present.len()
        invariant
            i <= present@.len(),
            forall|j: int| 0 <= j < i ==> (#[trigger] present@[j])@ != name@,
        decreases present@.len() - i,
    {
        if text::same_text(present[i].as_str(), name) {
            assert(text::texts(present@)[i as int] == name@);
            return true;
        }
        i += 1;
    }
    assert(!text::texts(present@).contains(name@)) by {
        assert forall|j: int| 0 <= j < text::texts(present@).len() implies text::texts(present@)[j]
            != name@ by {
            assert(present@[j]@ != name@);
        }
    }
    false
}

/// The path of the first of some files that is in the model folder.
pub fn find_optional(model_dir: &FilePath, candidates: &Vec<String>, present: &Vec<String>) -> (path:
    Option<FilePath>)
    ensures
        match first_present(text::texts(candidates@), text::texts(present@)) {
            Some(name) => path matches Some(p) && p@ == paths::joined(
                model_dir@,
                vstd::utf8::encode_utf8(name),
            ),
            None => path is None,
        },
{
    let mut i: usize = 0;
    proof {
        assert(text::texts(candidates@).skip(0) =~= text::texts(candidates@));
    }
    while i < candidates.len()
        invariant
            i <= candidates@.len(),
            first_present(text::texts(candidates@), text::texts(present@)) == first_present(
                text::texts(candidates@).skip(i as int),
                text::texts(present@),
            ),
        decreases candidates@.len() - i,
    {
        let name = candidates[i].as_str();
        proof {
            assert(text::texts(candidates@).skip(i as int)[0] == name@);
            assert(text::texts(candidates@).skip(i as int).drop_first() =~= text::texts(
                candidates@,
            ).skip(i + 1));
        }
        if is_present(present, name) {
            return Some(model_dir.join_text(name));
        }
        i += 1;
    }
    None
}

/// Why a model file is missing.
pub open spec fn missing_message(
    model_dir: Seq<u8>,
    label: Seq<char>,
    candidates: Seq<Seq<char>>,
) -> Seq<char> {
    "OCR disabled: missing "@ + label + " in "@ + paths::shown(model_dir) + " (tried: "@
        + text::joined(candidates, ", "@)
        + "). Set BIP_OCR_MODEL_DIR to your model folder."@
}

/// The path of the first of some files that is in the model folder, or why there
/// is none.
pub fn find_existing(
    model_dir: &FilePath,
    label: &str,
    candidates: &Vec<String>,
    present: &Vec<String>,
) -> (path: Result<FilePath, String>)
    ensures
        match first_present(text::texts(candidates@), text::texts(present@)) {
            Some(name) => path matches Ok(p) && p@ == paths::joined(
                model_dir@,
                vstd::utf8::encode_utf8(name),
            ),
            None => path matches Err(why) && why@ == missing_message(
                model_dir@,
                label@,
                text::texts(candidates@),
            ),
        },
{
    match find_optional(model_dir, candidates, present) {
        Some(path) => Ok(path),
        None => {
            let mut why = text::owned("OCR disabled: missing ");
            text::push_text(&mut why, label);
            text::push_text(&mut why, " in ");
            let shown = model_dir.display_text();
            text::push_text(&mut why, shown.as_str());
            text::push_text(&mut why, " (tried: ");
            let tried = text::join(candidates, ", ");
            text::push_text(&mut why, tried.as_str());
            text::push_text(&mut why, "). Set BIP_OCR_MODEL_DIR to your model folder.");
            Err(why)
        },
    }
}

/// The names that the detection model may have.
pub open spec fn det_names() -> Seq<Seq<char>> {
    seq!["det.onnx"@]
}

/// The names that the recognition model may have.
pub open spec fn rec_names() -> Seq<Seq<char>> {
    seq!["rec.onnx"@]
}

/// The names that the dictionary may have.
pub open spec fn dictionary_names() -> Seq<Seq<char>> {
    seq!["ppocrv5_dict.txt"@, "dict.txt"@]
}

/// The names that the model for the orientation of lines may have.
pub open spec fn line_names() -> Seq<Seq<char>> {
    seq![
        "PP-LCNet_x0_25_textline_ori.onnx"@,
        "textline_ori.onnx"@,
        "text_line_ori.onnx"@,
    ]
}

/// The names that the model for the orientation of documents may have.
pub open spec fn document_names() -> Seq<Seq<char>> {
    seq!["PP-LCNet_x1_0_doc_ori.onnx"@, "doc_ori.onnx"@]
}

/// The model files that are looked for, in the order of [`ModelPaths`].
#[derive(Clone, Copy, Debug, PartialEq, Eq, Structural)]
pub enum ModelFile {
    Detection,
    Recognition,
    Dictionary,
    TextLineOrientation,
    DocumentOrientation,
}

/// The names that a model file may have.
pub open spec fn names_of(file: ModelFile) -> Seq<Seq<char>> {
    match file {
        ModelFile::Detection => det_names(),
        ModelFile::Recognition => rec_names(),
        ModelFile::Dictionary => dictionary_names(),
        ModelFile::TextLineOrientation => line_names(),
        ModelFile::DocumentOrientation => document_names(),
    }
}

/// The names that a model file may have, the preferred one first.
pub fn candidate_names(file: ModelFile) -> (names: Vec<String>)
    ensures
        text::texts(names@) == names_of(file),
{
    let mut names: Vec<String> = Vec::new();
    match file {
        ModelFile::Detection => {
            names.push(text::owned("det.onnx"));
        },
        ModelFile::Recognition => {
            names.push(text::owned("rec.onnx"));
        },
        ModelFile::Dictionary => {
            names.push(text::owned("ppocrv5_dict.txt"));
            names.push(text::owned("dict.txt"));
        },
        ModelFile::TextLineOrientation => {
            names.push(text::owned("PP-LCNet_x0_25_textline_ori.onnx"));
            names.push(text::owned("textline_ori.onnx"));
            names.push(text::owned("text_line_ori.onnx"));
        },
        ModelFile::DocumentOrientation => {
            names.push(text::owned("PP-LCNet_x1_0_doc_ori.onnx"));
            names.push(text::owned("doc_ori.onnx"));
        },
    }
    assert(text::texts(names@) =~= names_of(file));
    names
}

/// An optional model file is the one that was found.
pub open spec fn is_found_at(
    path: Option<FilePath>,
    model_dir: Seq<u8>,
    found: Option<Seq<char>>,
) -> bool {
    match found {
        Some(name) => path matches Some(p) && p@ == paths::joined(
            model_dir,
            vstd::utf8::encode_utf8(name),
        ),
        None => path is None,
    }
}

/// Finds the model files among the names that are in the model folder. The two
/// models and the dictionary have to be there; the first that is missing is
/// reported.
pub fn resolve_model_paths(model_dir: &FilePath, present: &Vec<String>) -> (resolved: Result<
    ModelPaths,
    String,
>)
    ensures
        ({
            let there = text::texts(present@);
            let det = first_present(det_names(), there);
            let rec = first_present(rec_names(), there);
            let dict = first_present(dictionary_names(), there);
            match resolved {
                Err(why) => why@ == (if det is None {
                    missing_message(model_dir@, "detection model"@, det_names())
                } else if rec is None {
                    missing_message(model_dir@, "recognition model"@, rec_names())
                } else {
                    missing_message(model_dir@, "OCR dictionary"@, dictionary_names())
                }) && (det is None || rec is None || dict is None),
                Ok(models) => {
                    &&& is_found_at(Some(models.det_model), model_dir@, det)
                    &&& is_found_at(Some(models.rec_model), model_dir@, rec)
                    &&& is_found_at(Some(models.dictionary), model_dir@, dict)
                    &&& is_found_at(
                        models.text_line_ori_model,
                        model_dir@,
                        first_present(line_names(), there),
                    )
                    &&& is_found_at(
                        models.doc_ori_model,
                        model_dir@,
                        first_present(document_names(), there),
                    )
                },
            }
        }),
{
    let det_model = match find_existing(
        model_dir,
        "detection model",
        &candidate_names(ModelFile::Detection),
        present,
    ) {
        Ok(path) => path,
        Err(why) => {
            return Err(why);
        },
    };
    let rec_model = match find_existing(
        model_dir,
        "recognition model",
        &candidate_names(ModelFile::Recognition),
        present,
    ) {
        Ok(path) => path,
        Err(why) => {
            return Err(why);
        },
    };
    let dictionary = match find_existing(
        model_dir,
        "OCR dictionary",
        &candidate_names(ModelFile::Dictionary),
        present,
    ) {
        Ok(path) => path,
        Err(why) => {
            return Err(why);
        },
    };
    let text_line_ori_model = find_optional(
        model_dir,
        &candidate_names(ModelFile::TextLineOrientation),
        present,
    );
    let doc_ori_model = find_optional(
        model_dir,
        &candidate_names(ModelFile::DocumentOrientation),
        present,
    );
    Ok(ModelPaths { det_model, rec_model, dictionary, text_line_ori_model, doc_ori_model })
}

/// The template of the event's sticker: where it came from, what it looks like, and
/// where on it the number is.
#[derive(Debug)]
pub struct StickerTemplate {
    pub path: FilePath,
    pub grayscale: GrayImage,
    pub number_roi: NormalizedRect,
}

/// Takes an image as the sticker's template, unless it is too small to be found.
pub fn set_sticker_template(
    store: &mut Option<StickerTemplate>,
    path: FilePath,
    grayscale: GrayImage,
    number_roi: NormalizedRect,
) -> (set: Result<(), String>)
    ensures
        match set {
            Err(why) => (grayscale.width < 24 || grayscale.height < 16) && why@
                == "Sticker template is too small"@ && *final(store) == *old(store),
            Ok(()) => grayscale.width >= 24 && grayscale.height >= 16 && *final(store) == Some(
                StickerTemplate { path, grayscale, number_roi },
            ),
        },
{
    if grayscale.width < 24 || grayscale.height < 16 {
        return Err(text::owned("Sticker template is too small"));
    }
    *store = Some(StickerTemplate { path, grayscale, number_roi });
    Ok(())
}

/// Forgets the sticker's template.
pub fn clear_sticker_template(store: &mut Option<StickerTemplate>)
    ensures
        *final(store) is None,
{
    *store = None;
}

/// The file name of the sticker's template, where there is one.
pub fn sticker_template_name(store: &Option<StickerTemplate>) -> (name: Option<String>)
    ensures
        text::optional_text(name) == (match *store {
            Some(template) => paths::file_name_text(template.path@),
            None => None,
        }),
{
    match store {
        Some(template) => template.path.file_name_text(),
        None => None,
    }
}

/// Whether there is a template of the sticker.
pub fn has_sticker_template(store: &Option<StickerTemplate>) -> (has: bool)
    ensures
        has == (*store is Some),
{
    store.is_some()
}

/// The first attempt makes text recognition ready just when it succeeds, and unavailable
/// otherwise.
pub proof fn the_first_attempt_decides(succeeded: bool)
    ensures
        after_attempt(EngineState::NotTried, succeeded) == EngineState::Ready <==> succeeded,
        after_attempt(EngineState::NotTried, succeeded) == EngineState::Unavailable <==> !succeeded,
{
}

proof fn lemma_device_names()
    ensures
        "cpu"@.len() == 3,
        "gpu"@.len() == 3,
        "dml"@.len() == 3,
        "trt"@.len() == 3,
        "cuda"@.len() == 4,
        "coreml"@.len() == 6,
        "webgpu"@.len() == 6,
        "directml"@.len() == 8,
        "openvino"@.len() == 8,
        "tensorrt"@.len() == 8,
        "cpu"@[0] == 'c',
        "gpu"@[0] == 'g',
        "dml"@[0] == 'd',
        "trt"@[0] == 't',
        "coreml"@[0] == 'c',
        "webgpu"@[0] == 'w',
        "directml"@[0] == 'd',
        "openvino"@[0] == 'o',
        "tensorrt"@[0] == 't',
{
    reveal_strlit("cpu");
    reveal_strlit("gpu");
    reveal_strlit("dml");
    reveal_strlit("trt");
    reveal_strlit("cuda");
    reveal_strlit("coreml");
    reveal_strlit("webgpu");
    reveal_strlit("directml");
    reveal_strlit("openvino");
    reveal_strlit("tensorrt");
}

/// A device is named by its own word, or by a short one where it has one, and by nothing
/// else.
pub proof fn devices_are_named(name: Seq<char>)
    ensures
        kind_named(name) == Some(ProviderKind::Cpu) <==> name == "cpu"@,
        kind_named(name) == Some(ProviderKind::Cuda) <==> name == "cuda"@ || name == "gpu"@,
        kind_named(name) == Some(ProviderKind::DirectMl) <==> name == "directml"@ || name == "dml"@,
        kind_named(name) == Some(ProviderKind::OpenVino) <==> name == "openvino"@,
        kind_named(name) == Some(ProviderKind::TensorRt) <==> name == "tensorrt"@ || name == "trt"@,
        kind_named(name) == Some(ProviderKind::CoreMl) <==> name == "coreml"@,
        kind_named(name) == Some(ProviderKind::WebGpu) <==> name == "webgpu"@,
{
    lemma_device_names();
}

/// The word for a device names that device.
pub proof fn words_name_their_devices(provider: Provider)
    ensures
        match provider {
            Provider::Cpu => kind_named(label_of(provider)) == Some(ProviderKind::Cpu),
            Provider::Cuda { .. } => kind_named(label_of(provider)) == Some(ProviderKind::Cuda),
            Provider::DirectMl { .. } => kind_named(label_of(provider)) == Some(
                ProviderKind::DirectMl,
            ),
            Provider::OpenVino { .. } => kind_named(label_of(provider)) == Some(
                ProviderKind::OpenVino,
            ),
            Provider::TensorRt { .. } => kind_named(label_of(provider)) == Some(
                ProviderKind::TensorRt,
            ),
            Provider::CoreMl => kind_named(label_of(provider)) == Some(ProviderKind::CoreMl),
            Provider::WebGpu => kind_named(label_of(provider)) == Some(ProviderKind::WebGpu),
        },
        label_of(provider) != "gpu"@,
        label_of(provider) != "dml"@,
        label_of(provider) != "trt"@,
{
    lemma_device_names();
}

/// A setting without a colon is a name alone. In one with a colon the name stands before it
/// and the argument behind it, up to a second colon if there is one.
pub proof fn settings_split_at_colons(name: Seq<char>, argument: Seq<char>, rest: Seq<char>)
    requires
        !name.contains(':'),
        !argument.contains(':'),
    ensures
        device_name(name) == text::trimmed(name),
        device_argument(name) is None,
        device_name(name + seq![':'] + argument) == text::trimmed(name),
        device_argument(name + seq![':'] + argument) == Some(text::trimmed(argument)),
        device_argument(name + seq![':'] + argument + seq![':'] + rest) == Some(
            text::trimmed(argument),
        ),
{
    lemma_no_separator(name);
    lemma_no_separator(argument);
    lemma_at_separator(name, argument);
    let tail = argument + seq![':'] + rest;
    lemma_at_separator(name, tail);
    lemma_at_separator(argument, rest);
    assert(name + seq![':'] + argument + seq![':'] + rest =~= name + seq![':'] + tail);
}

proof fn lemma_no_separator(s: Seq<char>)
    requires
        !s.contains(':'),
    ensures
        text::before_first(s, ':') == s,
        text::after_first(s, ':') is None,
{
    text::texts_split_at_the_first_separator(s, ':');
}

proof fn lemma_at_separator(s: Seq<char>, rest: Seq<char>)
    requires
        !s.contains(':'),
    ensures
        text::before_first(s + seq![':'] + rest, ':') == s,
        text::after_first(s + seq![':'] + rest, ':') == Some(rest),
    decreases s.len(),
{
    let whole = s + seq![':'] + rest;
    if s.len() == 0 {
        assert(whole[0] == ':');
        assert(whole.drop_first() =~= rest);
        assert(text::before_first(whole, ':') =~= s);
    } else {
        assert(s.contains(s[0]));
        let tail = s.drop_first();
        assert(!tail.contains(':')) by {
            if tail.contains(':') {
                let k = choose|k: int| 0 <= k < tail.len() && tail[k] == ':';
                assert(s[k + 1] == ':');
            }
        }
        lemma_at_separator(tail, rest);
        assert(whole.drop_first() =~= tail + seq![':'] + rest);
        assert(whole[0] == s[0]);
        assert(seq![s[0]] + tail =~= s);
    }
}

/// A device has the number that is written behind its name, and zero where nothing is or
/// what is there is no number.
pub proof fn devices_have_their_numbers(n: i32, argument: Seq<char>)
    ensures
        device_number(Some(text::signed_decimal(n as int))) == n,
        device_number(None) == 0,
        text::read_i32(argument) is None ==> device_number(Some(argument)) == 0,
{
    text::signed_numbers_are_read_back(n as int);
}

/// A device that is asked for by its kind is of that kind, with its number or what else it is
/// told.
pub proof fn devices_are_told_their_arguments(
    provider: Provider,
    kind: ProviderKind,
    argument: Option<Seq<char>>,
)
    requires
        is_provider(provider, kind, argument),
    ensures
        kind_named(label_of(provider)) == Some(kind),
        provider matches Provider::Cuda { device_id } ==> device_id == device_number(argument),
        provider matches Provider::DirectMl { device_id } ==> device_id == device_number(argument),
        provider matches Provider::TensorRt { device_id } ==> device_id == device_number(argument),
        provider matches Provider::OpenVino { device_type } ==> text::optional_text(device_type)
            == argument,
{
    words_name_their_devices(provider);
}

/// Unless it is set, recognition uses as many threads as the machine runs at once, but eight
/// at most and one at least.
pub proof fn threads_follow_the_machine(available: usize)
    ensures
        1 <= default_threads(available) <= 8,
        1 <= available <= 8 ==> default_threads(available) == available,
        available > 8 ==> default_threads(available) == 8,
        available == 0 ==> default_threads(available) == 1,
{
}

/// The file that is taken is the first of the names that is there, and there is none just
/// when none of them is.
pub proof fn the_first_name_that_is_there_is_taken(
    names: Seq<Seq<char>>,
    present: Seq<Seq<char>>,
    i: int,
)
    requires
        0 <= i < names.len(),
    ensures
        present.contains(names[i]) && (forall|j: int|
            0 <= j < i ==> !present.contains(#[trigger] names[j])) ==> first_present(names, present)
            == Some(names[i]),
        first_present(names, present) is None ==> !present.contains(names[i]),
        first_present(names, present) matches Some(name) ==> names.contains(name)
            && present.contains(name),
    decreases names.len(),
{
    let rest = names.drop_first();
    if present.contains(names[0]) {
        assert(names.contains(names[0]));
        if i > 0 {
            assert(present.contains(names[0]));
        }
    } else if rest.len() > 0 {
        let k = if i > 0 {
            i - 1
        } else {
            0
        };
        the_first_name_that_is_there_is_taken(rest, present, k);
        assert(rest[k] == names[k + 1]);
        if first_present(rest, present) is Some {
            let name = first_present(rest, present)->0;
            let j = choose|j: int| 0 <= j < rest.len() && rest[j] == name;
            assert(names[j + 1] == name);
        }
        if i > 0 && present.contains(names[i]) && (forall|j: int|
            0 <= j < i ==> !present.contains(#[trigger] names[j])) {
            assert forall|j: int| 0 <= j < k implies !present.contains(#[trigger] rest[j]) by {
                assert(rest[j] == names[j + 1]);
            }
        }
    } else {
        assert(first_present(rest, present) is None);
    }
}

/// The names that each model file may have, the preferred one first.
pub proof fn model_files_have_their_names(file: ModelFile)
    ensures
        file == ModelFile::Detection ==> names_of(file) == seq!["det.onnx"@],
        file == ModelFile::Recognition ==> names_of(file) == seq!["rec.onnx"@],
        file == ModelFile::Dictionary ==> names_of(file) == seq![
            "ppocrv5_dict.txt"@,
            "dict.txt"@,
        ],
        file == ModelFile::TextLineOrientation ==> names_of(file) == seq![
            "PP-LCNet_x0_25_textline_ori.onnx"@,
            "textline_ori.onnx"@,
            "text_line_ori.onnx"@,
        ],
        file == ModelFile::DocumentOrientation ==> names_of(file) == seq![
            "PP-LCNet_x1_0_doc_ori.onnx"@,
            "doc_ori.onnx"@,
        ],
        det_names() == names_of(ModelFile::Detection),
        rec_names() == names_of(ModelFile::Recognition),
        dictionary_names() == names_of(ModelFile::Dictionary),
        line_names() == names_of(ModelFile::TextLineOrientation),
        document_names() == names_of(ModelFile::DocumentOrientation),
{
}

/// What is said of a model file that is missing names it, the folder and every name that was
/// tried.
pub proof fn missing_files_are_named(model_dir: Seq<u8>, label: Seq<char>, names: Seq<Seq<char>>)
    ensures
        missing_message(model_dir, label, names) == "OCR disabled: missing "@ + label + " in "@
            + paths::shown(model_dir) + " (tried: "@ + text::joined(names, ", "@)
            + "). Set BIP_OCR_MODEL_DIR to your model folder."@,
{
}

/// A model file that was found stands in the model folder under its name.
pub proof fn found_files_stand_in_the_folder(
    path: Option<FilePath>,
    model_dir: Seq<u8>,
    found: Option<Seq<char>>,
)
    requires
        is_found_at(path, model_dir, found),
    ensures
        path is Some <==> found is Some,
        path matches Some(p) ==> p@ == paths::joined(
            model_dir,
            vstd::utf8::encode_utf8(found->0),
        ),
{
}

}
