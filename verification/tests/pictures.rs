use numera::batch::{
    all_failed, apply_export_effects, apply_preview_effects, effects_are_possible, process_single,
    single_result, stamp_is_possible, stem_for_export, BatchConfig, OutputFormat, PosterOptions,
    SingleStep, WatermarkConfig, WatermarkRotation,
};
use numera::image_cache::{preview_max_side, text_signature, CachedImage, ImageCache};
use numera::image_ops::{
    add_white_border, border_is_possible, crop_to_33x66cm_poster_aspect, crop_to_aspect_centered,
    decode_image_from_bytes, exceeds, fit_is_possible, generate_thumbnail, is_jpeg,
    load_watermark_stamp, overlay, overlay_stamp_with_position, page_image_name, page_objects,
    poster_dimensions, poster_is_possible, resize_exact, resize_is_possible,
    resize_to_33x66cm_poster, rotate_image, select_scaling_factor, shadow_alpha,
    template_dimensions, AspectCrop, PageObjects, Rotation, ScalingFactor, TextColor,
    TextOverlayConfig, TextPosition, WatermarkShape,
};
use numera::paths::FilePath;
use numera::raster::{
    cut_raster, render_preview_image, turn_raster, white_canvas, Raster, Turn,
};
use numera::score::Score;
use numera::template_search::to_luma;
use std::sync::Arc;

fn path(s: &str) -> FilePath {
    FilePath::parse(s.as_bytes())
}

fn gray(width: u32, height: u32, values: &[u8]) -> Raster {
    let pixels = values.iter().flat_map(|v| [*v, *v, *v]).collect();
    Raster { width, height, pixel_bytes: 3, pixels }
}

fn grays(img: &Raster) -> Vec<u8> {
    img.pixels.chunks(img.pixel_bytes as usize).map(|p| p[0]).collect()
}

fn rgba(width: u32, height: u32, pixel: [u8; 4]) -> Raster {
    let pixels = pixel.repeat((width * height) as usize);
    Raster { width, height, pixel_bytes: 4, pixels }
}

fn pixel(img: &Raster, x: u32, y: u32) -> Vec<u8> {
    let at = ((y * img.width + x) * 4) as usize;
    img.pixels[at..at + 4].to_vec()
}

#[test]
fn pictures_are_turned_clockwise() {
    let img = gray(3, 2, &[1, 2, 3, 4, 5, 6]);
    let turned = rotate_image(&img, Rotation::Cw90);
    assert_eq!((turned.width, turned.height), (2, 3));
    assert_eq!(grays(&turned), vec![4, 1, 5, 2, 6, 3]);
    assert_eq!(grays(&rotate_image(&img, Rotation::Cw180)), vec![6, 5, 4, 3, 2, 1]);
    assert_eq!(grays(&rotate_image(&img, Rotation::Cw270)), vec![3, 6, 2, 5, 1, 4]);
    assert_eq!(grays(&rotate_image(&img, Rotation::NoTurn)), vec![1, 2, 3, 4, 5, 6]);
    assert_eq!(Rotation::Cw270.quarter_turns(), 3);
}

#[test]
fn turns_agree_with_the_image_crate() {
    let img = gray(3, 2, &[1, 2, 3, 4, 5, 6]);
    let theirs = image::RgbImage::from_raw(3, 2, img.pixels.clone()).unwrap();
    let ours = |turn| turn_raster(&img, turn).pixels;
    assert_eq!(ours(Turn::Cw90), image::imageops::rotate90(&theirs).into_raw());
    assert_eq!(ours(Turn::Cw180), image::imageops::rotate180(&theirs).into_raw());
    assert_eq!(ours(Turn::Cw270), image::imageops::rotate270(&theirs).into_raw());
    assert_eq!(
        ours(Turn::FlipHorizontal),
        image::imageops::flip_horizontal(&theirs).into_raw()
    );
    assert_eq!(
        ours(Turn::FlipVertical),
        image::imageops::flip_vertical(&theirs).into_raw()
    );
    let mut transposed = image::DynamicImage::ImageRgb8(theirs.clone());
    transposed.apply_orientation(image::metadata::Orientation::Rotate90FlipH);
    assert_eq!(ours(Turn::Cw90FlipHorizontal), transposed.into_rgb8().into_raw());
    let mut transversed = image::DynamicImage::ImageRgb8(theirs);
    transversed.apply_orientation(image::metadata::Orientation::Rotate270FlipH);
    assert_eq!(ours(Turn::Cw270FlipHorizontal), transversed.into_rgb8().into_raw());
}

#[test]
fn four_quarter_turns_give_the_picture_back() {
    let img = gray(3, 2, &[1, 2, 3, 4, 5, 6]);
    let mut turned = rotate_image(&img, Rotation::Cw90);
    for _ in 0..3 {
        turned = rotate_image(&turned, Rotation::Cw90);
    }
    assert_eq!(turned.pixels, img.pixels);
    let back = rotate_image(&rotate_image(&img, Rotation::Cw90), Rotation::Cw270);
    assert_eq!(back.pixels, img.pixels);
}

#[test]
fn rectangles_are_cut_out() {
    let img = gray(3, 3, &[1, 2, 3, 4, 5, 6, 7, 8, 9]);
    assert_eq!(grays(&cut_raster(&img, 1, 1, 2, 2)), vec![5, 6, 8, 9]);
    assert_eq!(cut_raster(&img, 3, 0, 0, 3).pixels, Vec::<u8>::new());
}

#[test]
fn opacity_is_added_and_dropped() {
    let img = gray(2, 1, &[7, 9]);
    let with = gray(2, 1, &[7, 9]).into_rgba();
    assert_eq!(with.pixels, vec![7, 7, 7, 255, 9, 9, 9, 255]);
    assert_eq!(with.rgb_values(), img.pixels);
    assert_eq!(gray(2, 1, &[7, 9]).rgb_values(), img.pixels);
}

#[test]
fn opacity_changes_as_in_the_image_crate() {
    let pixels: Vec<u8> = (0..=255u8).flat_map(|v| [v, 255 - v, v / 2]).collect();
    let img = Raster { width: 16, height: 16, pixel_bytes: 3, pixels: pixels.clone() };
    let theirs =
        image::DynamicImage::ImageRgb8(image::RgbImage::from_raw(16, 16, pixels).unwrap());
    assert_eq!(img.into_rgba().pixels, theirs.to_rgba8().into_raw());
    let pixels: Vec<u8> = (0..=255u8).flat_map(|v| [v, 255 - v, v / 2, 7]).collect();
    let img = Raster { width: 16, height: 16, pixel_bytes: 4, pixels: pixels.clone() };
    let theirs =
        image::DynamicImage::ImageRgba8(image::RgbaImage::from_raw(16, 16, pixels).unwrap());
    assert_eq!(img.rgb_values(), theirs.to_rgb8().into_raw());
}

#[test]
fn red_and_blue_are_exchanged_for_the_screen() {
    let bgra = render_preview_image(&[1, 2, 3, 4, 5, 6, 7, 8]);
    assert_eq!(bgra, vec![3, 2, 1, 4, 7, 6, 5, 8]);
    assert_eq!(render_preview_image(&bgra), vec![1, 2, 3, 4, 5, 6, 7, 8]);
}

#[test]
fn whole_pictures_have_all_their_values() {
    assert!(gray(2, 1, &[7, 9]).is_whole());
    assert!(!gray(2, 2, &[7, 9]).is_whole());
    let odd = Raster { width: 1, height: 1, pixel_bytes: 1, pixels: vec![1] };
    assert!(!odd.is_whole());
    assert_eq!(white_canvas(1, 2).pixels, vec![255; 8]);
}

#[test]
fn stamps_replace_what_they_hide() {
    let base = rgba(3, 2, [10, 20, 30, 255]);
    let mut stamp = rgba(2, 1, [1, 2, 3, 255]);
    stamp.pixels[7] = 0;
    let out = overlay(base, &stamp, 1, 1);
    assert_eq!(pixel(&out, 1, 1), vec![1, 2, 3, 255]);
    assert_eq!(pixel(&out, 2, 1), vec![10, 20, 30, 255]);
    assert_eq!(pixel(&out, 0, 0), vec![10, 20, 30, 255]);
}

#[test]
fn stamps_shine_through() {
    let base = rgba(1, 1, [0, 0, 0, 255]);
    let out = overlay(base, &rgba(1, 1, [200, 100, 50, 128]), 0, 0);
    let mut theirs = image::Rgba([0u8, 0, 0, 255]);
    image::Pixel::blend(&mut theirs, &image::Rgba([200, 100, 50, 128]));
    assert_eq!(out.pixels, theirs.0.to_vec());
    assert_eq!(out.pixels[0], 100);
}

#[test]
fn stamps_may_reach_over_the_edge() {
    let out = overlay(rgba(2, 2, [9, 9, 9, 255]), &rgba(3, 3, [1, 1, 1, 255]), -1, 1);
    assert_eq!(grays(&out), vec![9, 9, 1, 1]);
}

#[test]
fn stamps_go_to_corners_or_the_middle() {
    let stamp = rgba(2, 1, [1, 1, 1, 255]);
    let place = |position| {
        let out = overlay_stamp_with_position(rgba(8, 5, [0, 0, 0, 255]), position, 1, &stamp);
        let at = grays(&out).iter().position(|v| *v == 1).unwrap() as u32;
        (at % 8, at / 8)
    };
    assert_eq!(place(TextPosition::TopLeft), (1, 1));
    assert_eq!(place(TextPosition::TopRight), (5, 1));
    assert_eq!(place(TextPosition::BottomLeft), (1, 3));
    assert_eq!(place(TextPosition::BottomRight), (5, 3));
    assert_eq!(place(TextPosition::Center), (3, 2));
    let large = overlay_stamp_with_position(
        rgba(1, 1, [0, 0, 0, 255]),
        TextPosition::BottomRight,
        5,
        &stamp,
    );
    assert_eq!(grays(&large), vec![1]);
}

#[test]
fn resizing_keeps_a_plain_color() {
    let out = resize_exact(gray(2, 2, &[50; 4]), 4, 3);
    assert_eq!((out.width, out.height, out.pixel_bytes), (4, 3, 4));
    assert!(out.pixels.chunks(4).all(|p| p == [50, 50, 50, 255]));
    let same = resize_exact(gray(2, 1, &[3, 200]), 2, 1);
    assert_eq!(grays(&same), vec![3, 200]);
    let wide = resize_exact(gray(2, 1, &[0, 200]), 4, 1);
    assert_eq!(grays(&wide), vec![0, 50, 150, 200]);
}

#[test]
fn sizes_are_tested_before_resizing() {
    assert!(resize_is_possible(10, 10, 5, 5));
    assert!(!resize_is_possible(10, 10, 0, 5));
    assert!(!resize_is_possible(2_000_000, 10, 5, 5));
    assert!(fit_is_possible(10, 10, 5, 5));
    assert!(!fit_is_possible(0, 10, 5, 5));
    assert!(poster_is_possible(4000, 3000));
    assert!(!poster_is_possible(4000, 2_000_000));
    assert!(border_is_possible(100, 100, 40));
    assert!(border_is_possible(100, 0, u32::MAX));
    assert!(!border_is_possible(100, 100, u32::MAX));
}

#[test]
fn posters_have_the_shape_of_their_picture() {
    assert_eq!(poster_dimensions(100, 100), (7795, 3898));
    assert_eq!(poster_dimensions(99, 100), (3898, 7795));
}

#[test]
fn crops_are_centered() {
    let img = || gray(5, 1, &[1, 2, 3, 4, 5]);
    assert_eq!(grays(&crop_to_aspect_centered(img(), AspectCrop::ToWidth(2))), vec![2, 3]);
    assert_eq!(grays(&crop_to_aspect_centered(img(), AspectCrop::Keep)), vec![1, 2, 3, 4, 5]);
    let tall = gray(1, 4, &[1, 2, 3, 4]);
    assert_eq!(
        grays(&crop_to_33x66cm_poster_aspect(tall, AspectCrop::ToHeight(2))),
        vec![2, 3]
    );
    let empty = crop_to_33x66cm_poster_aspect(gray(0, 3, &[]), AspectCrop::ToHeight(9));
    assert_eq!((empty.width, empty.height), (0, 3));
    assert!(AspectCrop::ToWidth(5).is_possible(5, 1));
    assert!(!AspectCrop::ToWidth(0).is_possible(5, 1));
    assert!(!AspectCrop::ToHeight(2).is_possible(5, 1));
}

#[test]
fn empty_pictures_make_no_poster() {
    let out = resize_to_33x66cm_poster(gray(0, 3, &[]), AspectCrop::Keep);
    assert_eq!((out.width, out.height, out.pixel_bytes), (0, 3, 3));
}

#[test]
fn borders_are_white_and_all_around() {
    let out = add_white_border(gray(2, 1, &[7, 9]), 1);
    assert_eq!((out.width, out.height), (4, 3));
    assert_eq!(
        grays(&out),
        vec![255, 255, 255, 255, 255, 7, 9, 255, 255, 255, 255, 255]
    );
    let same = add_white_border(gray(2, 1, &[7, 9]), 0);
    assert_eq!(same.pixel_bytes, 3);
    assert_eq!(add_white_border(gray(0, 1, &[]), 4).width, 0);
}

#[test]
fn thumbnails_fit_and_keep_their_shape() {
    let out = generate_thumbnail(gray(4, 2, &[80; 8]), 2);
    assert_eq!((out.width, out.height), (2, 1));
    assert_eq!(grays(&out), vec![80, 80]);
    assert!(exceeds(3, 1, 2));
    assert!(exceeds(1, 3, 2));
    assert!(!exceeds(2, 2, 2));
}

#[test]
fn pages_are_numbered_after_the_catalog() {
    assert_eq!(
        page_objects(2),
        vec![
            PageObjects { page: 3, content: 4, image: 5 },
            PageObjects { page: 6, content: 7, image: 8 },
        ]
    );
    assert_eq!(page_objects(0), vec![]);
    assert_eq!(page_image_name(12), "Im12");
}

#[test]
fn watermarks_are_faded_resized_and_turned() {
    let mut img = rgba(2, 1, [10, 10, 10, 200]);
    img.pixels[7] = 100;
    let alpha: Vec<u8> = (0..256).map(|a| (a / 2) as u8).collect();
    let shape = WatermarkShape { alpha: Some(alpha), size: None };
    let stamp = load_watermark_stamp(Ok(img), &shape, Rotation::Cw90).unwrap();
    assert_eq!((stamp.width, stamp.height), (1, 2));
    assert_eq!(stamp.pixels, vec![10, 10, 10, 100, 10, 10, 10, 50]);
    let larger = WatermarkShape { alpha: None, size: Some((4, 2)) };
    let stamp =
        load_watermark_stamp(Ok(rgba(2, 1, [5, 6, 7, 255])), &larger, Rotation::NoTurn).unwrap();
    assert_eq!((stamp.width, stamp.height), (4, 2));
    assert_eq!(pixel(&stamp, 3, 1), vec![5, 6, 7, 255]);
    assert_eq!(
        load_watermark_stamp(Err("gone".to_string()), &larger, Rotation::NoTurn).unwrap_err(),
        "gone"
    );
}

fn encoded(width: u32, height: u32, values: &[u8]) -> Vec<u8> {
    let img = image::RgbImage::from_raw(
        width,
        height,
        values.iter().flat_map(|v| [*v, *v, *v]).collect(),
    )
    .unwrap();
    let mut out = std::io::Cursor::new(Vec::new());
    img.write_to(&mut out, image::ImageFormat::Png).unwrap();
    out.into_inner()
}

#[test]
fn files_are_decoded() {
    let raw = encoded(2, 1, &[7, 200]);
    let img = decode_image_from_bytes(&path("a.png"), &raw, None).unwrap();
    assert_eq!((img.width, img.height, img.pixel_bytes), (2, 1, 4));
    assert_eq!(grays(&img), vec![7, 200]);
}

#[test]
fn pictures_that_were_decoded_early_are_used() {
    let raw = encoded(2, 1, &[7, 200]);
    let early = gray(1, 1, &[3]);
    let img = decode_image_from_bytes(&path("a.png"), &raw, Some(early)).unwrap();
    assert_eq!(grays(&img), vec![3]);
}

#[test]
fn files_that_are_no_images_are_refused() {
    let error = decode_image_from_bytes(&path("d/a.jpg"), b"nothing", None).unwrap_err();
    assert!(error.starts_with("Failed to create decoder d/a.jpg: "), "{error}");
    let mut cut = encoded(20, 20, &[9; 400]);
    cut.truncate(60);
    let error = decode_image_from_bytes(&path("a.png"), &cut, None).unwrap_err();
    assert!(error.starts_with("Failed to "), "{error}");
}

/// A JPEG file with the orientation in its EXIF data.
fn jpeg_with_orientation(orientation: u8) -> Vec<u8> {
    let img = image::RgbImage::from_raw(2, 1, vec![0, 0, 0, 255, 255, 255]).unwrap();
    let mut out = std::io::Cursor::new(Vec::new());
    img.write_to(&mut out, image::ImageFormat::Jpeg).unwrap();
    let jpeg = out.into_inner();
    let mut tiff = vec![b'I', b'I', 42, 0, 8, 0, 0, 0, 1, 0];
    tiff.extend_from_slice(&[0x12, 0x01, 3, 0, 1, 0, 0, 0, orientation, 0, 0, 0, 0, 0, 0, 0]);
    let mut exif = b"Exif\0\0".to_vec();
    exif.extend_from_slice(&tiff);
    let mut raw = vec![0xff, 0xd8, 0xff, 0xe1];
    let len = exif.len() as u16 + 2;
    raw.extend_from_slice(&len.to_be_bytes());
    raw.extend_from_slice(&exif);
    raw.extend_from_slice(&jpeg[2..]);
    raw
}

#[test]
fn pictures_are_put_the_right_way_up() {
    let plain = decode_image_from_bytes(&path("a.jpg"), &jpeg_with_orientation(1), None).unwrap();
    assert_eq!((plain.width, plain.height), (2, 1));
    assert!(grays(&plain)[0] < grays(&plain)[1]);
    let turned = decode_image_from_bytes(&path("a.jpg"), &jpeg_with_orientation(6), None).unwrap();
    assert_eq!((turned.width, turned.height), (1, 2));
    assert!(grays(&turned)[0] < grays(&turned)[1]);
    let flipped = decode_image_from_bytes(&path("a.jpg"), &jpeg_with_orientation(2), None).unwrap();
    assert!(grays(&flipped)[0] > grays(&flipped)[1]);
    assert!(is_jpeg(&jpeg_with_orientation(1)));
    assert!(!is_jpeg(&[0xff, 0xd8]));
}

#[test]
fn scaling_stays_above_the_preview() {
    let factors: Vec<ScalingFactor> = [(2, 1), (1, 1), (1, 2), (1, 4), (1, 8)]
        .iter()
        .map(|(num, denom)| ScalingFactor { num: *num, denom: *denom })
        .collect();
    let chosen = |w, h, side| {
        let f = select_scaling_factor(w, h, side, &factors);
        (f.num, f.denom)
    };
    assert_eq!(chosen(100, 100, 200), (1, 1));
    assert_eq!(chosen(4000, 3000, 1000), (1, 4));
    assert_eq!(chosen(4001, 3000, 1000), (1, 4));
    assert_eq!(chosen(3999, 3000, 1000), (1, 4));
    assert_eq!(chosen(3992, 3000, 1000), (1, 2));
    assert_eq!(chosen(100000, 10, 100), (1, 8));
    let none = select_scaling_factor(500, 500, 100, &Vec::new());
    assert_eq!((none.num, none.denom), (1, 1));
}

#[test]
fn overlays_name_the_file_by_default() {
    let config = TextOverlayConfig::default();
    assert!(config.depends_on_file());
    assert_eq!(config.stamp_text("IMG_1"), "IMG_1");
    assert_eq!(f32::from_bits(config.font_size.bits), 24.0);
    assert_eq!(config.margin, 10);
    assert_eq!(TextColor::default(), TextColor { r: 255, g: 255, b: 255, a: 255 });
    assert_eq!(shadow_alpha(255), 180);
    assert_eq!(shadow_alpha(10), 7);
    let img = gray(3, 2, &[0; 6]);
    assert_eq!(template_dimensions(&img), (3, 2));
}

fn batch(poster: PosterOptions) -> BatchConfig {
    BatchConfig { poster, output_dir: path("/out"), ..BatchConfig::default() }
}

fn plain_poster() -> PosterOptions {
    PosterOptions::default()
}

#[test]
fn batches_export_to_pdf_by_default() {
    let config = BatchConfig::default();
    assert_eq!(config.quality, 70);
    assert_eq!(config.output_format, OutputFormat::Pdf);
    assert_eq!(config.rotation, Rotation::NoTurn);
    assert!(config.text_overlay.is_none() && config.watermark.is_none());
    assert_eq!(config.poster, PosterOptions { resize_to_33x66cm: false, margin_px: 0 });
}

#[test]
fn watermarks_turn_with_the_picture() {
    assert_eq!(WatermarkRotation::default(), WatermarkRotation::MatchImage);
    assert_eq!(WatermarkRotation::MatchImage.resolve(Rotation::Cw90), Rotation::Cw90);
    assert_eq!(
        WatermarkRotation::Fixed(Rotation::Cw180).resolve(Rotation::Cw90),
        Rotation::Cw180
    );
}

#[test]
fn one_stamp_serves_a_batch_without_file_names() {
    let mut config = batch(plain_poster());
    assert_eq!(config.shared_stamp_text(), None);
    assert_eq!(config.own_stamp_text("x", false), None);
    config.text_overlay =
        Some(TextOverlayConfig { text_template: "Event".to_string(), ..Default::default() });
    assert_eq!(config.shared_stamp_text(), Some("Event".to_string()));
    assert_eq!(config.own_stamp_text("x", true), None);
    config.text_overlay = Some(TextOverlayConfig {
        text_template: "{filename}!".to_string(),
        ..Default::default()
    });
    assert_eq!(config.shared_stamp_text(), None);
    assert_eq!(config.own_stamp_text("x", false), Some("x!".to_string()));
}

#[test]
fn exports_are_named_after_their_source() {
    let mut config = batch(plain_poster());
    assert_eq!(config.output_path("82").display_text(), "/out/82.pdf");
    config.output_format = OutputFormat::Jpeg;
    assert_eq!(config.output_path("82").display_text(), "/out/82.jpg");
    assert_eq!(stem_for_export(&path("a/82.x.png")), "82.x");
    assert_eq!(stem_for_export(&path("a/..")), "image");
}

#[test]
fn effects_come_in_their_order() {
    let mut config = batch(PosterOptions { resize_to_33x66cm: false, margin_px: 1 });
    config.text_overlay =
        Some(TextOverlayConfig { margin: 0, position: TextPosition::TopLeft, ..Default::default() });
    config.watermark = Some(WatermarkConfig {
        image_path: path("w.png"),
        position: TextPosition::TopLeft,
        margin: 0,
        scale_percent: Score { bits: 0x42c8_0000 },
        opacity: Score { bits: 0x3f80_0000 },
        rotation: WatermarkRotation::MatchImage,
    });
    let text = rgba(2, 1, [1, 1, 1, 255]);
    let watermark = rgba(1, 1, [2, 2, 2, 255]);
    let out = apply_export_effects(
        gray(1, 1, &[9]),
        &config,
        AspectCrop::Keep,
        Some(&text),
        Some(&watermark),
    );
    assert_eq!(grays(&out), vec![2, 1, 255, 255, 9, 255, 255, 255, 255]);
    let preview = apply_preview_effects(
        gray(1, 1, &[9]),
        &config,
        AspectCrop::Keep,
        Some(&text),
        Some(&watermark),
    );
    assert_eq!(preview.pixels, out.pixels);
    let bare = apply_export_effects(gray(1, 1, &[9]), &config, AspectCrop::Keep, None, None);
    assert_eq!(grays(&bare), vec![255, 255, 255, 255, 9, 255, 255, 255, 255]);
}

#[test]
fn previews_of_posters_keep_their_resolution() {
    let config = batch(PosterOptions { resize_to_33x66cm: true, margin_px: 0 });
    let out = apply_preview_effects(
        gray(4, 1, &[1, 2, 3, 4]),
        &config,
        AspectCrop::ToWidth(2),
        None,
        None,
    );
    assert_eq!(grays(&out), vec![2, 3]);
}

#[test]
fn pictures_without_effects_stay_as_they_are() {
    let config = batch(plain_poster());
    let out = apply_export_effects(gray(2, 1, &[7, 9]), &config, AspectCrop::Keep, None, None);
    assert_eq!((out.pixel_bytes, grays(&out)), (3, vec![7, 9]));
}

#[test]
fn effects_are_tested_before_they_are_applied() {
    let poster = PosterOptions { resize_to_33x66cm: true, margin_px: 10 };
    assert!(effects_are_possible(400, 100, poster, AspectCrop::ToWidth(200), false));
    assert!(!effects_are_possible(400, 100, poster, AspectCrop::ToWidth(500), true));
    assert!(effects_are_possible(0, 100, poster, AspectCrop::ToWidth(500), true));
    let huge = PosterOptions { resize_to_33x66cm: false, margin_px: u32::MAX };
    assert!(!effects_are_possible(400, 100, huge, AspectCrop::Keep, false));
    assert!(stamp_is_possible(&rgba(2, 2, [0; 4]), TextPosition::Center, 5));
    assert!(!stamp_is_possible(&rgba(2, 2, [0; 4]), TextPosition::Center, u32::MAX));
    assert!(!stamp_is_possible(&gray(1, 1, &[0]), TextPosition::Center, 5));
}

#[test]
fn pictures_of_a_batch_are_turned_and_written() {
    let mut config = batch(plain_poster());
    config.rotation = Rotation::Cw90;
    let step = process_single(
        &path("in/82.png"),
        Ok(gray(2, 1, &[7, 9])),
        &config,
        AspectCrop::Keep,
        None,
        None,
    );
    match step {
        SingleStep::Write { path, picture } => {
            assert_eq!(path.display_text(), "/out/82.pdf");
            assert_eq!((picture.width, picture.height), (1, 2));
            assert_eq!(grays(&picture), vec![7, 9]);
        }
        SingleStep::Report(_) => panic!("reported"),
    }
    let failed = process_single(
        &path("in/82.png"),
        Err("unreadable".to_string()),
        &config,
        AspectCrop::Keep,
        None,
        None,
    );
    match failed {
        SingleStep::Report(result) => {
            assert!(!result.success);
            assert_eq!(result.error, Some("unreadable".to_string()));
            assert!(result.source.same(&path("in/82.png")));
        }
        SingleStep::Write { .. } => panic!("written"),
    }
}

#[test]
fn results_tell_what_happened() {
    assert!(single_result(&path("a"), Ok(())).success);
    let failed = single_result(&path("a"), Err("full".to_string()));
    assert_eq!((failed.success, failed.error), (false, Some("full".to_string())));
    let all = all_failed(&vec![path("a"), path("b")], "no watermark");
    assert_eq!(all.len(), 2);
    assert!(all.iter().all(|r| !r.success && r.error == Some("no watermark".to_string())));
    assert!(all[1].source.same(&path("b")));
}

fn cached(value: u8) -> CachedImage {
    CachedImage {
        rgba: Arc::new(vec![value; 4]),
        preview: Arc::new(vec![value; 4]),
        width: 1,
        height: 1,
    }
}

fn kept(cache: &mut ImageCache, name: &str) -> Option<u8> {
    cache.lookup(&path(name), Rotation::NoTurn, 0).map(|i| i.rgba[0])
}

#[test]
fn previews_have_a_longest_side() {
    let side = |s: &str| preview_max_side(&Some(s.to_string()));
    assert_eq!(preview_max_side(&None), 3200);
    assert_eq!(side(" 1000 "), 1000);
    assert_eq!(side("1"), 512);
    assert_eq!(side("99999"), 8192);
    assert_eq!(side("0"), 3200);
    assert_eq!(side("big"), 3200);
}

#[test]
fn stored_previews_come_back() {
    let mut cache = ImageCache::new(2, &None);
    assert_eq!(cache.max_size, 3200);
    assert_eq!(kept(&mut cache, "a"), None);
    cache.store(&path("a"), Rotation::NoTurn, 0, cached(1));
    assert_eq!(kept(&mut cache, "a"), Some(1));
    cache.store(&path("a"), Rotation::NoTurn, 0, cached(2));
    assert_eq!(kept(&mut cache, "a"), Some(2));
    assert!(cache.lookup(&path("a"), Rotation::Cw90, 0).is_none());
    assert!(cache.lookup(&path("a"), Rotation::NoTurn, 9).is_none());
}

#[test]
fn the_preview_unused_for_longest_is_dropped() {
    let mut cache = ImageCache::new(2, &None);
    cache.store(&path("a"), Rotation::NoTurn, 0, cached(1));
    cache.store(&path("b"), Rotation::NoTurn, 0, cached(2));
    assert_eq!(kept(&mut cache, "a"), Some(1));
    cache.store(&path("c"), Rotation::NoTurn, 0, cached(3));
    assert_eq!(kept(&mut cache, "b"), None);
    assert_eq!(kept(&mut cache, "a"), Some(1));
    assert_eq!(kept(&mut cache, "c"), Some(3));
}

#[test]
fn asking_what_is_missing_counts_as_no_use() {
    let mut cache = ImageCache::new(2, &None);
    cache.store(&path("a"), Rotation::NoTurn, 0, cached(1));
    cache.store(&path("b"), Rotation::NoTurn, 0, cached(2));
    let list = vec![path("c"), path("a"), path("d")];
    let missing = cache.missing(&list, Rotation::NoTurn, 0);
    let names: Vec<String> = missing.iter().map(|p| p.display_text()).collect();
    assert_eq!(names, vec!["c", "d"]);
    cache.store(&path("c"), Rotation::NoTurn, 0, cached(3));
    assert_eq!(kept(&mut cache, "a"), None);
    assert_eq!(kept(&mut cache, "b"), Some(2));
}

#[test]
fn a_cache_without_room_gets_some() {
    let mut cache = ImageCache::new(0, &None);
    for i in 0..11 {
        cache.store(&path(&i.to_string()), Rotation::NoTurn, 0, cached(i));
    }
    assert_eq!(kept(&mut cache, "0"), None);
    assert_eq!(kept(&mut cache, "1"), Some(1));
    assert_eq!(kept(&mut cache, "10"), Some(10));
}

#[test]
fn signatures_tell_texts_apart() {
    assert_eq!(text_signature(None), 0);
    let a = TextOverlayConfig::default();
    let b = TextOverlayConfig { margin: 11, ..TextOverlayConfig::default() };
    assert_eq!(text_signature(Some(&a)), text_signature(Some(&a.clone())));
    assert_ne!(text_signature(Some(&a)), text_signature(Some(&b)));
    let c = TextOverlayConfig { position: TextPosition::Center, ..TextOverlayConfig::default() };
    assert_ne!(text_signature(Some(&a)), text_signature(Some(&c)));
    assert_ne!(text_signature(Some(&a)), 0);
}

#[test]
fn previews_are_turned_sized_and_titled() {
    let cache = ImageCache::new(2, &Some("512".to_string()));
    let config = TextOverlayConfig {
        position: TextPosition::TopLeft,
        margin: 0,
        ..TextOverlayConfig::default()
    };
    let stamp = rgba(1, 1, [1, 2, 3, 255]);
    let preview = cache
        .decode_image(Some(gray(2, 1, &[7, 9])), Rotation::Cw90, Some(&config), Some(&stamp))
        .unwrap();
    assert_eq!((preview.width, preview.height), (1, 2));
    assert_eq!(*preview.rgba, vec![1, 2, 3, 255, 9, 9, 9, 255]);
    assert_eq!(*preview.preview, vec![3, 2, 1, 255, 9, 9, 9, 255]);
    let large = gray(1024, 256, &vec![60; 1024 * 256]);
    let preview = cache.decode_image(Some(large), Rotation::NoTurn, None, None).unwrap();
    assert_eq!((preview.width, preview.height), (512, 128));
    assert!(cache.decode_image(None, Rotation::NoTurn, None, None).is_none());
}

#[test]
fn previews_made_ahead_are_there() {
    let mut cache = ImageCache::new(4, &None);
    cache.store(&path("a"), Rotation::NoTurn, 0, cached(1));
    let list = vec![path("a"), path("b"), path("c"), path("d")];
    let missing = cache.missing(&list, Rotation::NoTurn, 0);
    assert_eq!(missing.len(), 3);
    for (i, image) in missing.iter().enumerate().filter(|(i, _)| *i != 1) {
        cache.store(image, Rotation::NoTurn, 0, cached(10 + i as u8));
    }
    assert_eq!(kept(&mut cache, "a"), Some(1));
    assert_eq!(kept(&mut cache, "b"), Some(10));
    assert_eq!(kept(&mut cache, "c"), None);
    assert_eq!(kept(&mut cache, "d"), Some(12));
}

/// Pictures of 16 bits with the same values, of every kind that a file can hold.
fn deep_pictures() -> Vec<image::DynamicImage> {
    let (w, h) = (7u32, 5u32);
    let value = |i: u32| (i * 1931 % 65536) as u16;
    let values = |per_pixel: u32| (0..w * h * per_pixel).map(value).collect::<Vec<u16>>();
    vec![
        image::DynamicImage::ImageRgb16(image::ImageBuffer::from_raw(w, h, values(3)).unwrap()),
        image::DynamicImage::ImageRgba16(image::ImageBuffer::from_raw(w, h, values(4)).unwrap()),
        image::DynamicImage::ImageLuma16(image::ImageBuffer::from_raw(w, h, values(1)).unwrap()),
        image::DynamicImage::ImageLumaA16(image::ImageBuffer::from_raw(w, h, values(2)).unwrap()),
    ]
}

#[test]
fn deep_pictures_are_reduced_last() {
    let filter = image::imageops::FilterType::Triangle;
    for deep in deep_pictures() {
        let mut raw = std::io::Cursor::new(Vec::new());
        deep.write_to(&mut raw, image::ImageFormat::Png).unwrap();
        let raw = raw.into_inner();
        let load = || decode_image_from_bytes(&path("a.png"), &raw, None).unwrap();
        let img = load();
        assert_eq!((img.width, img.height, img.pixel_bytes), (7, 5, 8));
        assert!(img.is_whole());
        assert_eq!(img.rgb_values(), deep.to_rgb8().into_raw());
        assert_eq!(load().into_rgba().pixels, deep.to_rgba8().into_raw());
        assert_eq!(to_luma(&img).values, deep.to_luma8().into_raw());

        let larger = resize_exact(load(), 11, 9);
        assert_eq!(larger.pixel_bytes, 8);
        let expected = deep.resize_exact(11, 9, filter);
        assert_eq!(larger.rgb_values(), expected.to_rgb8().into_raw());

        let small = generate_thumbnail(load(), 4);
        let expected = deep.resize(4, 4, filter).to_rgba8();
        assert_eq!((small.width, small.height, small.pixel_bytes), (4, expected.height(), 4));
        assert_eq!(small.pixels, expected.into_raw());

        let cut = cut_raster(&rotate_image(&img, Rotation::Cw90), 1, 2, 3, 4);
        let expected = deep.rotate90().crop_imm(1, 2, 3, 4);
        assert_eq!(cut.rgb_values(), expected.to_rgb8().into_raw());
    }
}

#[test]
fn deep_values_are_rounded() {
    let deep = |v: u16| {
        let [high, low] = v.to_be_bytes();
        let pixels = [high, low].repeat(4);
        Raster { width: 1, height: 1, pixel_bytes: 8, pixels }
    };
    for v in [0u16, 128, 129, 257, 385, 386, 32768, 65406, 65407, 65535] {
        let expected = (v as f64 / 257.0).round() as u8;
        assert_eq!(deep(v).into_rgba().pixels, [expected; 4]);
    }
}

#[test]
fn gray_pictures_are_treated_as_such() {
    let filter = image::imageops::FilterType::Triangle;
    let values: Vec<u8> = (0..=255).collect();
    let gray = image::GrayImage::from_raw(16, 16, values).unwrap();
    let gray = image::DynamicImage::ImageLuma8(gray);
    let mut raw = std::io::Cursor::new(Vec::new());
    gray.write_to(&mut raw, image::ImageFormat::Png).unwrap();
    let raw = raw.into_inner();
    let load = || decode_image_from_bytes(&path("a.png"), &raw, None).unwrap();
    assert_eq!(load().rgb_values(), gray.to_rgb8().into_raw());
    assert_eq!(to_luma(&load()).values, gray.to_luma8().into_raw());
    let expected = gray.resize_exact(9, 21, filter).to_rgb8().into_raw();
    assert_eq!(resize_exact(load(), 9, 21).rgb_values(), expected);
}
