use numera::event_config::NormalizedRect;
use numera::ocr::{infer_number_roi, Findings, PixelBounds};
use numera::ocr_cache::OcrCache;
use numera::ocr_engine::{add_whole_picture, detections_in, gather, resize_for_ocr};
use numera::ocr_result::{Detection, OcrResult};
use numera::ocr_setup::{
    after_setup, candidate_names, clear_sticker_template, find_existing, find_optional,
    has_sticker_template, init_ocr, is_ocr_available, ocr_intra_threads, ort_provider_label,
    parse_execution_providers, requested_device, resolve_model_paths, set_sticker_template,
    sticker_template_name, EngineState, ModelFile, Provider, SetupStep,
};
use numera::paths::FilePath;
use numera::raster::Raster;
use numera::score::Score;
use numera::template_search::{
    best_template_match, matched_sticker, prepare_template_image, shrink, sticker_guided_crops,
    template_fits, to_luma, GrayImage, MatchRect, PixelRect,
};

fn path(s: &str) -> FilePath {
    FilePath::parse(s.as_bytes())
}

fn score(v: f32) -> Score {
    Score { bits: v.to_bits() }
}

fn detection(text: &str, confidence: f32) -> Detection {
    Detection { text: text.to_string(), confidence: score(confidence) }
}

#[test]
fn detections_are_grouped_by_their_digits() {
    let mut findings = Findings::new();
    assert!(findings.needs_full_image());
    findings.merge_detections(
        vec![detection("No 82", 0.5), detection("x", 0.9), detection("8-2", 0.7)],
        true,
    );
    assert!(!findings.needs_full_image());
    findings.merge_detections(vec![detection("82", 0.6), detection("1234567", 0.9)], false);
    assert_eq!(findings.candidates.len(), 1);
    let c = &findings.candidates[0];
    assert_eq!((c.digits.as_str(), c.count, c.template_hits), ("82", 3, 2));
    assert_eq!(f32::from_bits(c.max_confidence.bits), 0.7);
    assert_eq!(findings.all_detections.len(), 5);
}

#[test]
fn the_best_candidate_is_the_number() {
    let mut findings = Findings::new();
    findings.merge_detections(
        vec![detection("7", 0.5), detection("82", 0.8), detection("9", 0.6)],
        false,
    );
    let scores = vec![score(0.55), score(0.89), score(0.89)];
    let best = findings.best_number(&scores).unwrap();
    assert_eq!(best.text, "9");
    assert_eq!(f32::from_bits(best.confidence.bits), 0.6);
    assert_eq!(best.all_detections.len(), 3);
    assert!(Findings::new().best_number(&Vec::new()).is_none());
}

#[test]
fn raw_text_joins_all_detections() {
    let result = OcrResult {
        text: "82".to_string(),
        confidence: score(0.5),
        all_detections: vec![detection("No", 0.1), detection("82", 0.5)],
    };
    assert!(result.raw_text().contains("No"));
    assert!(result.raw_text().contains("82"));
}

#[test]
fn answers_of_the_engine_are_read() {
    let region = |t: Option<&str>, c: Option<f32>| {
        (t.map(|s| s.to_string()), c.map(|v| v.to_bits()))
    };
    let answer = Some(vec![
        vec![
            region(Some("82"), Some(0.5)),
            region(None, Some(0.9)),
            region(Some("x"), None),
            region(Some("7"), Some(0.25)),
        ],
        vec![region(Some("99"), Some(1.0))],
    ]);
    let read: Vec<(String, f32)> = detections_in(&answer)
        .into_iter()
        .map(|d| (d.text, f32::from_bits(d.confidence.bits)))
        .collect();
    assert_eq!(read, vec![("82".to_string(), 0.5), ("7".to_string(), 0.25)]);
    assert!(detections_in(&None).is_empty());
    assert!(detections_in(&Some(Vec::new())).is_empty());
}

#[test]
fn crops_are_gathered_before_the_picture() {
    let findings = gather(vec![vec![detection("82", 0.5)], vec![detection("82", 0.6)]]);
    assert_eq!(findings.candidates[0].template_hits, 2);
    assert!(!findings.needs_full_image());
    let nothing = gather(vec![vec![detection("x", 0.5)]]);
    assert!(nothing.needs_full_image());
    let all = add_whole_picture(nothing, vec![detection("7", 0.5)]);
    assert_eq!((all.candidates[0].count, all.candidates[0].template_hits), (1, 0));
    assert_eq!(all.all_detections.len(), 2);
}

#[test]
fn large_pictures_are_shrunk_before_reading() {
    let small = Raster { width: 1, height: 1, pixel_bytes: 3, pixels: vec![1, 2, 3] };
    assert_eq!(resize_for_ocr(small, (1, 1)).pixel_bytes, 3);
    let wide = Raster { width: 3600, height: 1, pixel_bytes: 3, pixels: vec![9; 3600 * 3] };
    let out = resize_for_ocr(wide, (1800, 1));
    assert_eq!((out.width, out.height), (1800, 1));
    assert!(out.pixels.chunks(4).all(|p| p == [9, 9, 9, 255]));
}

#[test]
fn brightness_is_that_of_the_image_crate() {
    let pixels: Vec<u8> = (0..60).map(|i| (i * 37 % 256) as u8).collect();
    let ours = to_luma(&Raster { width: 5, height: 4, pixel_bytes: 3, pixels: pixels.clone() });
    let theirs = image::DynamicImage::ImageRgb8(
        image::RgbImage::from_raw(5, 4, pixels.clone()).unwrap(),
    );
    assert_eq!(ours.values, theirs.to_luma8().into_raw());
    let ours = to_luma(&Raster { width: 5, height: 3, pixel_bytes: 4, pixels: pixels.clone() });
    let theirs =
        image::DynamicImage::ImageRgba8(image::RgbaImage::from_raw(5, 3, pixels).unwrap());
    assert_eq!(ours.values, theirs.to_luma8().into_raw());
}

fn gray(width: u32, height: u32, value: impl Fn(u32, u32) -> u8) -> GrayImage {
    let mut values = Vec::new();
    for y in 0..height {
        for x in 0..width {
            values.push(value(x, y));
        }
    }
    GrayImage { width, height, values }
}

fn pattern(x: u32, y: u32) -> u8 {
    ((x * 31 + y * 17 + x * y * 7) % 251) as u8
}

#[test]
fn templates_are_found_where_they_are() {
    let template = gray(20, 14, pattern);
    let image = gray(40, 30, |x, y| {
        if (7..27).contains(&x) && (9..23).contains(&y) {
            pattern(x - 7, y - 9)
        } else {
            3
        }
    });
    let sizes = vec![(10, 10), (20, 14), (40, 14), (24, 16)];
    let best = best_template_match(&image, &template, &sizes).unwrap();
    assert_eq!((best.x, best.y, best.w, best.h), (7, 9, 20, 14));
    assert!(f32::from_bits(best.score.bits) > 0.999);
    assert!(matched_sticker(Some(best)).is_some());
    assert!(best_template_match(&image, &template, &vec![(5, 5)]).is_none());
}

#[test]
fn template_search_agrees_with_the_extremes() {
    let template = gray(22, 15, |x, y| pattern(y, x));
    let image = gray(40, 30, pattern);
    let best = best_template_match(&image, &template, &vec![(22, 15)]).unwrap();
    let theirs = imageproc::template_matching::match_template(
        &image::GrayImage::from_raw(40, 30, image.values.clone()).unwrap(),
        &image::GrayImage::from_raw(22, 15, template.values.clone()).unwrap(),
        imageproc::template_matching::MatchTemplateMethod::CrossCorrelationNormalized,
    );
    let extremes = imageproc::template_matching::find_extremes(&theirs);
    assert_eq!((best.x, best.y), extremes.max_value_location);
    assert_eq!(best.score.bits, extremes.max_value.to_bits());
}

#[test]
fn weak_matches_are_no_sticker() {
    let found = |s: f32| {
        matched_sticker(Some(MatchRect { x: 0, y: 0, w: 1, h: 1, score: score(s) })).is_some()
    };
    assert!(found(0.27));
    assert!(!found(0.2699));
    assert!(matched_sticker(None).is_none());
    assert!(template_fits(20, 14, 21, 15));
    assert!(!template_fits(19, 14, 21, 15));
    assert!(!template_fits(20, 14, 20, 15));
}

#[test]
fn large_templates_are_shrunk() {
    let plain = |w: u32, h: u32| Raster {
        width: w,
        height: h,
        pixel_bytes: 3,
        pixels: vec![100; (w * h * 3) as usize],
    };
    let same = prepare_template_image(&plain(900, 2), (1, 1));
    assert_eq!((same.width, same.height), (900, 2));
    let smaller = prepare_template_image(&plain(1800, 2), (900, 1));
    assert_eq!((smaller.width, smaller.height), (900, 1));
    assert!(smaller.values.iter().all(|v| *v == 100));
    let kept = shrink(gray(3, 2, pattern), 3, (1, 1));
    assert_eq!(kept.values, gray(3, 2, pattern).values);
}

#[test]
fn no_rectangle_is_read_twice() {
    let img = Raster {
        width: 4,
        height: 1,
        pixel_bytes: 3,
        pixels: vec![1, 1, 1, 2, 2, 2, 3, 3, 3, 4, 4, 4],
    };
    let a = PixelRect { x: 1, y: 0, w: 2, h: 1 };
    let b = PixelRect { x: 0, y: 0, w: 4, h: 1 };
    let crops = sticker_guided_crops(&img, &vec![Some(a), None, Some(a), Some(b)]);
    assert_eq!(crops.len(), 2);
    assert_eq!(crops[0].pixels, vec![2, 2, 2, 3, 3, 3]);
    assert_eq!(crops[1].pixels, img.pixels);
}

#[test]
fn blue_fields_hold_the_number() {
    let mut rgb = vec![200u8; 3 * 10 * 10];
    for y in 3..8 {
        for x in 2..7 {
            let at = 3 * (y * 10 + x);
            rgb[at..at + 3].copy_from_slice(&[20, 40, 200]);
        }
    }
    assert_eq!(
        infer_number_roi(&rgb, 10, 10),
        Some(PixelBounds { min_x: 2, min_y: 3, max_x: 6, max_y: 7 })
    );
    assert_eq!(infer_number_roi(&vec![200; 300], 10, 10), None);
    assert_eq!(infer_number_roi(&vec![20; 3 * 7 * 9], 7, 9), None);
}

fn reading(text: &str) -> OcrResult {
    OcrResult {
        text: text.to_string(),
        confidence: score(0.5),
        all_detections: vec![detection(text, 0.5)],
    }
}

#[test]
fn readings_are_kept() {
    let mut cache = OcrCache::new();
    assert!(cache.get_cached_ocr(&path("a")).is_none());
    cache.cache_ocr_result(&path("a"), &reading("82"));
    cache.cache_ocr_result(&path("a"), &reading("7"));
    let kept = cache.get_cached_ocr(&path("a")).unwrap();
    assert_eq!(kept.text, "82");
    assert_eq!(kept.all_detections.len(), 1);
    assert_eq!(kept.all_detections[0].text, "82");
}

#[test]
fn readings_stay_while_others_are_added() {
    let mut cache = OcrCache::new();
    cache.cache_ocr_result(&path("first"), &reading("82"));
    for i in 1..16_384 {
        cache.cache_ocr_result(&path(&i.to_string()), &reading(&i.to_string()));
        assert_eq!(cache.get_cached_ocr(&path("first")).unwrap().text, "82");
    }
    for i in 1..16_384 {
        let text = i.to_string();
        assert_eq!(cache.get_cached_ocr(&path(&text)).unwrap().text, text);
    }
}

#[test]
fn a_full_cache_is_emptied() {
    let mut cache = OcrCache::new();
    for i in 0..16_384 {
        cache.cache_ocr_result(&path(&i.to_string()), &reading("1"));
    }
    assert_eq!(cache.get_cached_ocr(&path("0")).unwrap().text, "1");
    cache.cache_ocr_result(&path("last"), &reading("2"));
    assert!(cache.get_cached_ocr(&path("0")).is_none());
    assert_eq!(cache.get_cached_ocr(&path("last")).unwrap().text, "2");
}

#[test]
fn engines_are_available_once_they_are_ready() {
    assert!(is_ocr_available(EngineState::Ready));
    assert!(!is_ocr_available(EngineState::NotTried));
    assert!(!is_ocr_available(EngineState::Unavailable));
    assert_eq!(after_setup("cuda", true, false), SetupStep::Done);
    assert_eq!(after_setup("cuda", false, false), SetupStep::RetryOnCpu);
    assert_eq!(after_setup("CPU", false, false), SetupStep::GiveUp);
    assert_eq!(after_setup("cuda", false, true), SetupStep::GiveUp);
}

#[test]
fn devices_are_read_with_their_argument() {
    let first = |device: &str| {
        let mut list = parse_execution_providers(device);
        (list.known, list.providers.len(), list.providers.remove(0))
    };
    assert!(matches!(first("cpu"), (true, 1, Provider::Cpu)));
    assert!(matches!(first("gpu: 2"), (true, 2, Provider::Cuda { device_id: 2 })));
    assert!(matches!(first("dml:x"), (true, 2, Provider::DirectMl { device_id: 0 })));
    assert!(matches!(first("trt:-1:9"), (true, 2, Provider::TensorRt { device_id: -1 })));
    assert!(matches!(first("coreml"), (true, 2, Provider::CoreMl)));
    assert!(matches!(first("webgpu"), (true, 2, Provider::WebGpu)));
    assert!(matches!(first("abacus"), (false, 1, Provider::Cpu)));
    match first("openvino: GPU ") {
        (true, 2, Provider::OpenVino { device_type }) => {
            assert_eq!(device_type, Some("GPU".to_string()))
        }
        other => panic!("{other:?}"),
    }
    assert_eq!(ort_provider_label(&Provider::Cuda { device_id: 1 }), "cuda");
    assert_eq!(requested_device(Some("  CUDA:1 ")), "cuda:1");
    assert_eq!(requested_device(Some("  ")), "cpu");
    assert_eq!(requested_device(None), "cpu");
}

#[test]
fn threads_are_counted_from_one() {
    assert_eq!(ocr_intra_threads(Some(" 3 "), 16), 3);
    assert_eq!(ocr_intra_threads(Some("0"), 16), 8);
    assert_eq!(ocr_intra_threads(Some("many"), 4), 4);
    assert_eq!(ocr_intra_threads(None, 0), 1);
}

fn names(list: &[&str]) -> Vec<String> {
    list.iter().map(|s| s.to_string()).collect()
}

#[test]
fn models_are_found_by_their_names() {
    let dir = path("models");
    let present = names(&["det.onnx", "rec.onnx", "dict.txt", "doc_ori.onnx"]);
    let paths = resolve_model_paths(&dir, &present).unwrap();
    assert_eq!(paths.det_model.display_text(), "models/det.onnx");
    assert_eq!(paths.dictionary.display_text(), "models/dict.txt");
    assert_eq!(paths.doc_ori_model.unwrap().display_text(), "models/doc_ori.onnx");
    assert!(paths.text_line_ori_model.is_none());
    let error = resolve_model_paths(&dir, &names(&["det.onnx", "rec.onnx"])).unwrap_err();
    assert_eq!(
        error,
        "OCR disabled: missing OCR dictionary in models (tried: ppocrv5_dict.txt, dict.txt). \
         Set BIP_OCR_MODEL_DIR to your model folder."
    );
    assert!(resolve_model_paths(&dir, &Vec::new()).unwrap_err().contains("detection model"));
    assert!(resolve_model_paths(&dir, &names(&["det.onnx"]))
        .unwrap_err()
        .contains("recognition model"));
    let found = find_optional(&dir, &names(&["b", "a"]), &names(&["a", "b"])).unwrap();
    assert_eq!(found.display_text(), "models/b");
    assert!(find_existing(&dir, "x", &names(&["c"]), &names(&["a"])).is_err());
    assert_eq!(candidate_names(ModelFile::Detection), names(&["det.onnx"]));
}

#[test]
fn sticker_templates_are_kept_one_at_a_time() {
    let roi = NormalizedRect { x: score(0.1), y: score(0.1), w: score(0.5), h: score(0.5) };
    let blank = |width: u32, height: u32| GrayImage {
        width,
        height,
        values: vec![0; (width * height) as usize],
    };
    let mut store = None;
    assert!(!has_sticker_template(&store));
    assert_eq!(
        set_sticker_template(&mut store, path("t.png"), blank(23, 16), roi).unwrap_err(),
        "Sticker template is too small"
    );
    assert!(set_sticker_template(&mut store, path("d/t.png"), blank(24, 16), roi).is_ok());
    assert_eq!(sticker_template_name(&store), Some("t.png".to_string()));
    assert_eq!(store.as_ref().unwrap().grayscale.width, 24);
    clear_sticker_template(&mut store);
    assert!(!has_sticker_template(&store));
    assert_eq!(sticker_template_name(&store), None);
}

#[test]
fn the_first_set_up_is_final() {
    let failed = "OCR engine initialization failed".to_string();
    for later in [true, false] {
        let (state, answer) = init_ocr(EngineState::NotTried, false);
        assert_eq!((state, answer), (EngineState::Unavailable, Err(failed.clone())));
        assert_eq!(init_ocr(state, later), (EngineState::Unavailable, Err(failed.clone())));
        let (state, answer) = init_ocr(EngineState::NotTried, true);
        assert_eq!((state, answer), (EngineState::Ready, Ok(())));
        assert_eq!(init_ocr(state, later), (EngineState::Ready, Ok(())));
    }
}

#[test]
fn brightness_is_rounded() {
    let luma = |r: u8, g: u8, b: u8| {
        to_luma(&Raster { width: 1, height: 1, pixel_bytes: 3, pixels: vec![r, g, b] }).values[0]
    };
    assert_eq!(luma(1, 1, 0), 1);
    assert_eq!(luma(0, 0, 7), 1);
    assert_eq!(luma(255, 255, 255), 255);
}
