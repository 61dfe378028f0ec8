use numera::embedding::{
    build_embedding_provider, cosine_similarity, edge_density, embedding_blob,
    embedding_from_blob, grid_cell, hsv_histogram,
    onnx_input_tensor, rider_motorcycle_proxy_crop, static_embedding_dim, CropBox,
    EmbeddingChoice, OnnxEmbeddingProvider, OnnxInputLayout, OnnxTensor,
    OpenCvEmbeddingProvider, VisualEmbeddingBackend, VisualEmbeddingConfig,
    VisualEmbeddingResult, MODEL_NAME, OPENCV_MODEL_NAME,
};
use numera::number_cropper::{adaptive_block_size, crop_number_region};
use numera::paths::FilePath;
use numera::score::Score;

fn scores(values: &[f32]) -> Vec<Score> {
    values.iter().map(|v| Score { bits: v.to_bits() }).collect()
}

fn cosine(a: &[f32], b: &[f32]) -> f32 {
    let dot: f32 = a.iter().zip(b.iter()).map(|(x, y)| x * y).sum();
    let dot = Score { bits: dot.to_bits() };
    f32::from_bits(cosine_similarity(&scores(a), &scores(b), dot).bits)
}

fn path(s: &str) -> FilePath {
    FilePath::parse(s.as_bytes())
}

#[test]
fn cosine_similarity_requires_same_dimensions() {
    assert_eq!(cosine(&[1.0], &[1.0, 0.0]), 0.0);
}

#[test]
fn cosine_similarity_scores_normalized_vectors() {
    assert!((cosine(&[1.0, 0.0], &[1.0, 0.0]) - 1.0).abs() < 0.001);
    assert!((cosine(&[1.0, 0.0], &[0.0, 1.0])).abs() < 0.001);
}

#[test]
fn embedding_backend_parses_config_values() {
    assert_eq!(
        VisualEmbeddingBackend::parse("onnx").unwrap(),
        VisualEmbeddingBackend::Onnx
    );
    assert_eq!(
        VisualEmbeddingBackend::parse("opencv").unwrap(),
        VisualEmbeddingBackend::OpenCv
    );
    assert!(VisualEmbeddingBackend::parse("unknown").is_err());
}

#[test]
fn default_embedding_config_uses_opencv_fallback() {
    let config = VisualEmbeddingConfig::default();
    assert_eq!(config.backend, VisualEmbeddingBackend::OpenCv);
    assert_eq!(config.resolved_model_name(), OPENCV_MODEL_NAME);
}

#[test]
fn similarities_stay_between_minus_one_and_one() {
    assert_eq!(cosine(&[2.0, 0.0], &[2.0, 0.0]), 1.0);
    assert_eq!(cosine(&[2.0], &[-2.0]), -1.0);
    assert_eq!(cosine(&[], &[]), 0.0);
    assert_eq!(cosine(&[0.5, 0.5], &[0.5, 0.25]), 0.375);
}

#[test]
fn backends_are_named_in_any_case() {
    assert_eq!(
        VisualEmbeddingBackend::parse("  ONNX\n").unwrap(),
        VisualEmbeddingBackend::Onnx
    );
    assert_eq!(
        VisualEmbeddingBackend::parse(" Other ").unwrap_err(),
        "unsupported visual embedding backend 'other'"
    );
}

#[test]
fn a_config_takes_over_a_backend() {
    let config = VisualEmbeddingConfig::default().with_backend("Onnx").unwrap();
    assert_eq!(config.backend, VisualEmbeddingBackend::Onnx);
    assert_eq!(config.input_size, 256);
    assert!(VisualEmbeddingConfig::default().with_backend("").is_err());
}

#[test]
fn default_normalization_is_the_usual_one() {
    let config = VisualEmbeddingConfig::default();
    let mean: Vec<f32> = config.mean.iter().map(|s| f32::from_bits(s.bits)).collect();
    let std: Vec<f32> = config.std.iter().map(|s| f32::from_bits(s.bits)).collect();
    assert_eq!(mean, vec![0.485, 0.456, 0.406]);
    assert_eq!(std, vec![0.229, 0.224, 0.225]);
    assert!(config.normalize);
}

#[test]
fn model_names_tell_model_and_size() {
    let mut config = VisualEmbeddingConfig::default();
    config.input_size = 128;
    assert_eq!(config.resolved_model_name(), "opencv_color_texture_v1_128px");
    config.model_name = Some(String::new());
    assert_eq!(config.resolved_model_name(), "opencv_color_texture_v1_128px");
    config.backend = VisualEmbeddingBackend::Onnx;
    assert_eq!(config.resolved_model_name(), "onnx_model_128px");
    config.model_path = Some(path("/models/clip.v2.onnx"));
    assert_eq!(config.resolved_model_name(), "onnx_clip.v2_128px");
    config.model_name = Some("mine".to_string());
    assert_eq!(config.resolved_model_name(), "mine");
    assert_eq!(MODEL_NAME, "opencv_color_texture_v1");
}

#[test]
fn the_built_in_model_is_chosen_by_default() {
    match build_embedding_provider(&VisualEmbeddingConfig::default()) {
        EmbeddingChoice::BuiltIn(provider) => {
            assert_eq!(provider.input_size, 256);
            assert_eq!(provider.model_name, OPENCV_MODEL_NAME);
            assert_eq!(provider.embedding_dim(), 96);
        }
        EmbeddingChoice::FromFile => panic!("a model from a file"),
    }
    let config = VisualEmbeddingConfig::default().with_backend("onnx").unwrap();
    assert!(matches!(
        build_embedding_provider(&config),
        EmbeddingChoice::FromFile
    ));
}

#[test]
fn input_sizes_have_a_lower_limit() {
    assert_eq!(OpenCvEmbeddingProvider::new(8).input_size, 32);
    assert_eq!(OpenCvEmbeddingProvider::new(-5).input_size, 32);
    assert_eq!(OpenCvEmbeddingProvider::new(33).input_size, 33);
    assert_eq!(OpenCvEmbeddingProvider::default().input_size, 256);
    let named = OpenCvEmbeddingProvider::with_model_name(64, "x".to_string());
    assert_eq!(named.model_name, "x");
}

#[test]
fn proxy_crops_stay_inside_the_image() {
    let wished = CropBox { x: 8, y: 10, w: 84, h: 82 };
    assert_eq!(rider_motorcycle_proxy_crop(100, 100, wished), Ok(wished));
    assert_eq!(
        rider_motorcycle_proxy_crop(50, 20, CropBox { x: 60, y: -3, w: 84, h: 0 }),
        Ok(CropBox { x: 49, y: 0, w: 1, h: 1 })
    );
    assert_eq!(
        rider_motorcycle_proxy_crop(0, 20, wished),
        Err("image has invalid dimensions".to_string())
    );
}

#[test]
fn debug_crops_are_noted() {
    let result = VisualEmbeddingResult {
        embedding: scores(&[1.0]),
        crop_path: None,
        crop_bbox: None,
        quality: None,
    };
    let noted = result.with_debug_crop(Some(&path("a/b.png")));
    assert!(noted.crop_path.unwrap().same(&path("a/b.png")));
}

#[test]
fn layouts_are_told_by_shape() {
    assert_eq!(
        OnnxInputLayout::from_shape(&[1, 3, 224, 224]),
        Some(OnnxInputLayout::Nchw)
    );
    assert_eq!(
        OnnxInputLayout::from_shape(&[1, 224, 224, 3]),
        Some(OnnxInputLayout::Nhwc)
    );
    assert_eq!(
        OnnxInputLayout::from_shape(&[-1, -1, -1, -1]),
        Some(OnnxInputLayout::Nchw)
    );
    assert_eq!(OnnxInputLayout::from_shape(&[1, 4, 224, 224]), None);
    assert_eq!(OnnxInputLayout::from_shape(&[3, 224, 224]), None);
    assert_eq!(OnnxInputLayout::Nchw.shape(64), vec![1, 3, 64, 64]);
    assert_eq!(OnnxInputLayout::Nhwc.shape(64), vec![1, 64, 64, 3]);
}

#[test]
fn tensors_hold_each_value_once() {
    let rgb: Vec<u8> = (0..12).collect();
    let table: Vec<Score> = (0..768u32).map(|i| Score { bits: i }).collect();
    let bits = |data: Vec<Score>| -> Vec<u32> { data.iter().map(|s| s.bits).collect() };
    assert_eq!(
        bits(onnx_input_tensor(&rgb, 2, OnnxInputLayout::Nhwc, &table)),
        vec![0, 257, 514, 3, 260, 517, 6, 263, 520, 9, 266, 523]
    );
    assert_eq!(
        bits(onnx_input_tensor(&rgb, 2, OnnxInputLayout::Nchw, &table)),
        vec![0, 3, 6, 9, 257, 260, 263, 266, 514, 517, 520, 523]
    );
}

#[test]
fn embedding_dims_come_from_static_shapes() {
    assert_eq!(static_embedding_dim(&[1, 512]), Some(512));
    assert_eq!(static_embedding_dim(&[-1, 8, 4]), Some(32));
    assert_eq!(static_embedding_dim(&[7, 2]), Some(14));
    assert_eq!(static_embedding_dim(&[1]), Some(1));
    assert_eq!(static_embedding_dim(&[]), None);
    assert_eq!(static_embedding_dim(&[1, 0]), None);
    assert_eq!(static_embedding_dim(&[1, -1]), None);
    assert_eq!(static_embedding_dim(&[1, -2]), None);
}

fn tensor(name: &str, shape: Option<Vec<i64>>, is_float: bool) -> OnnxTensor {
    OnnxTensor { name: name.to_string(), shape, is_float }
}

#[test]
fn models_are_checked_before_use() {
    let config = VisualEmbeddingConfig::default();
    let new = |inputs: Vec<OnnxTensor>, outputs: Vec<OnnxTensor>| {
        OnnxEmbeddingProvider::new(&config, &inputs, &outputs)
    };
    let input = || tensor("image", Some(vec![1, 3, 64, 64]), true);
    let output = || tensor("vector", Some(vec![1, 128]), true);
    let provider = new(vec![input()], vec![output()]).unwrap();
    assert_eq!(provider.output_dim, 128);
    assert_eq!(provider.input_layout, OnnxInputLayout::Nchw);
    assert_eq!(provider.input_name, "image");
    assert_eq!(provider.output_name, "vector");
    let error = |inputs, outputs| new(inputs, outputs).unwrap_err();
    assert_eq!(error(vec![], vec![output()]), "ONNX embedding model has no inputs");
    assert_eq!(
        error(vec![tensor("image", None, true)], vec![output()]),
        "ONNX input 'image' is not a tensor"
    );
    assert_eq!(
        error(vec![tensor("image", Some(vec![1, -2]), true)], vec![output()]),
        "unsupported ONNX input shape for 'image': [1, -2]; expected NCHW or NHWC image tensor"
    );
    assert_eq!(
        error(vec![tensor("image", Some(vec![1, 3, 64, 64]), false)], vec![output()]),
        "ONNX input 'image' must be f32"
    );
    assert_eq!(error(vec![input()], vec![]), "ONNX embedding model has no outputs");
    assert_eq!(
        error(vec![input()], vec![tensor("vector", None, false)]),
        "ONNX output 'vector' must be f32"
    );
    let unknown = new(vec![input()], vec![tensor("vector", Some(vec![1, -1]), true)]).unwrap();
    assert_eq!(unknown.output_dim, 0);
}

#[test]
fn model_files_have_to_be_set_and_there() {
    let mut config = VisualEmbeddingConfig::default();
    assert_eq!(
        OnnxEmbeddingProvider::model_path(&config).unwrap_err(),
        "visual_embedding_model_path is required when backend is 'onnx'"
    );
    config.model_path = Some(path("/m.onnx"));
    let found = OnnxEmbeddingProvider::model_path(&config).unwrap();
    assert_eq!(
        OnnxEmbeddingProvider::missing_model(&found),
        "ONNX embedding model does not exist: /m.onnx"
    );
    assert_eq!(
        OnnxEmbeddingProvider::check_output(&[1, 1], 1).unwrap_err(),
        "unsupported ONNX output shape [1, 1]; expected a non-empty embedding vector"
    );
    assert!(OnnxEmbeddingProvider::check_output(&[1, 2], 2).is_ok());
}

#[test]
fn histograms_count_every_pixel_once() {
    let hsv = vec![0, 0, 0, 179, 255, 255, 180, 32, 31, 90, 128, 64];
    let histogram = hsv_histogram(&hsv);
    assert_eq!(histogram.total, 4);
    assert_eq!(histogram.hue.iter().sum::<u32>(), 4);
    assert_eq!(histogram.hue[0], 1);
    assert_eq!(histogram.hue[15], 2);
    assert_eq!(histogram.hue[8], 1);
    assert_eq!(histogram.sat, vec![1, 1, 0, 0, 1, 0, 0, 1]);
    assert_eq!(histogram.val, vec![2, 0, 1, 0, 0, 0, 0, 1]);
}

#[test]
fn cells_cover_the_picture() {
    let mut covered = vec![0; 10 * 7];
    for cell_y in 0..4 {
        for cell_x in 0..4 {
            let (x0, y0, x1, y1) = grid_cell(10, 7, cell_x, cell_y);
            for y in y0..y1 {
                for x in x0..x1 {
                    covered[y * 10 + x] += 1;
                }
            }
        }
    }
    assert!(covered.iter().all(|n| *n == 1));
    assert_eq!(grid_cell(10, 7, 3, 3), (6, 3, 10, 7));
}

#[test]
fn edges_are_counted_in_a_rectangle() {
    let edges = vec![0, 255, 0, 1, 0, 0, 0, 255, 255];
    assert_eq!(edge_density(&edges, 3, 3, 0, 0, 3, 3), (4, 9));
    assert_eq!(edge_density(&edges, 3, 3, 1, 1, 3, 3), (2, 4));
    assert_eq!(edge_density(&edges, 3, 3, 2, 2, 2, 2), (0, 0));
}

#[test]
fn number_regions_are_cut_off_at_the_edge() {
    let wished = CropBox { x: 10, y: 5, w: 50, h: 20 };
    assert_eq!(
        crop_number_region(40, 40, wished),
        Ok(CropBox { x: 10, y: 5, w: 30, h: 20 })
    );
    assert_eq!(
        crop_number_region(0, 40, wished),
        Err("warped sticker is empty".to_string())
    );
    assert_eq!(
        crop_number_region(11, 40, wished),
        Err("configured number region is too small after warping".to_string())
    );
}

#[test]
fn block_sizes_are_odd() {
    assert_eq!(adaptive_block_size(10, 500), 11);
    assert_eq!(adaptive_block_size(-10, 500), 11);
    assert_eq!(adaptive_block_size(96, 500), 13);
    assert_eq!(adaptive_block_size(200, 104), 13);
    assert_eq!(adaptive_block_size(4000, 3000), 41);
}

#[test]
fn embeddings_are_stored_low_byte_first() {
    let values = [1.0, -0.25, 0.1, f32::NAN];
    let blob = embedding_blob(&scores(&values));
    let expected: Vec<u8> = values.iter().flat_map(|v| v.to_le_bytes()).collect();
    assert_eq!(blob, expected);
    assert_eq!(blob[..4], [0x00, 0x00, 0x80, 0x3f]);
    assert_eq!(embedding_from_blob(&blob), scores(&values));
    assert_eq!(embedding_from_blob(&blob[..7]), scores(&[1.0]));
    assert!(embedding_from_blob(&[]).is_empty());
    assert!(embedding_blob(&[]).is_empty());
}

#[test]
fn similarities_are_kept_in_bounds_both_ways() {
    let (a, b) = ([1.0, 1.0], [1.0, 0.5]);
    assert_eq!(cosine(&a, &b), 1.0);
    assert_eq!(cosine(&b, &a), 1.0);
    assert_eq!(cosine(&[-1.0, -1.0], &b), -1.0);
    assert_eq!(cosine(&[0.5, 0.0], &b), cosine(&b, &[0.5, 0.0]));
    assert_eq!(cosine(&[], &[]), 0.0);
}
