use numera::app_state::{
    format_options, is_plain_preview, position_options, rotation_options, slider_range,
    watermark_rotation_options, AppMode, AppState, BatchSettings, PreviewOutcome, ResultRows,
    SettingChange, SliderKind, SortingState, FORMAT_ROW, POSITION_ROW, ROTATION_ROW,
    WATERMARK_POSITION_ROW, WATERMARK_ROTATION_ROW,
};
use numera::batch::{OutputFormat, ProcessResult, WatermarkRotation};
use numera::image_ops::{Rotation, TextPosition};
use numera::note::Note;
use numera::numbered_sort::{NumberedSortMode, NumberedSortResult, NumberedSortSummary};
use numera::paths::FilePath;
use numera::score::Score;

fn path(s: &str) -> FilePath {
    FilePath::parse(s.as_bytes())
}

fn score(v: f32) -> Score {
    Score { bits: v.to_bits() }
}

fn said(note: &Note) -> String {
    let mut all = String::new();
    for part in &note.parts {
        match &part.number {
            Some(n) => all += &format!("{:.*}", n.places as usize, f32::from_bits(n.score.bits)),
            None => all += &part.words,
        }
    }
    all
}

fn opened(names: &[&str]) -> AppState {
    let mut state = AppState::new();
    state.open_folder(names.iter().map(|n| path(n)).collect());
    state
}

fn exported(source: &str, error: Option<&str>) -> ProcessResult {
    ProcessResult {
        source: path(source),
        success: error.is_none(),
        error: error.map(|e| e.to_string()),
    }
}

fn sorted(source: &str, success: bool) -> NumberedSortResult {
    NumberedSortResult {
        source: path(source),
        destination: if success { Some(path("/in/82/x.jpg")) } else { None },
        number: Some("82".to_string()),
        success,
        error: if success { None } else { Some("no room".to_string()) },
    }
}

#[test]
fn lists_start_at_the_first_choices() {
    let settings = BatchSettings::new();
    assert_eq!(format_options()[FORMAT_ROW].value, settings.output_format);
    assert_eq!(rotation_options()[ROTATION_ROW].value, settings.rotation);
    assert_eq!(
        watermark_rotation_options()[WATERMARK_ROTATION_ROW].value,
        settings.watermark_rotation
    );
    assert_eq!(position_options()[POSITION_ROW].value, settings.text_position);
    assert_eq!(position_options()[WATERMARK_POSITION_ROW].value, settings.watermark_position);
    assert_eq!(format_options()[0].label, "JPEG");
    let turns: Vec<String> = rotation_options().into_iter().map(|o| o.label).collect();
    assert_eq!(turns, ["None", "90° CW", "180°", "270° CW"]);
    assert_eq!(watermark_rotation_options().len(), 5);
    assert_eq!(position_options()[4].label, "Center");
}

#[test]
fn sliders_have_their_ranges() {
    let range = |kind| {
        let r = slider_range(kind);
        (
            f32::from_bits(r.min.bits),
            f32::from_bits(r.max.bits),
            f32::from_bits(r.step.bits),
            f32::from_bits(r.start.bits),
        )
    };
    assert_eq!(range(SliderKind::Quality), (1.0, 100.0, 1.0, 70.0));
    assert_eq!(range(SliderKind::FontSize), (8.0, 200.0, 1.0, 24.0));
    assert_eq!(range(SliderKind::TextMargin), (0.0, 200.0, 1.0, 10.0));
    assert_eq!(range(SliderKind::PosterMargin), (0.0, 400.0, 1.0, 40.0));
    assert_eq!(range(SliderKind::WatermarkMargin), (0.0, 200.0, 1.0, 10.0));
    assert_eq!(range(SliderKind::WatermarkScale), (5.0, 300.0, 1.0, 100.0));
    assert_eq!(range(SliderKind::WatermarkOpacity), (0.05, 1.0, 0.05, 0.25));
}

#[test]
fn choices_change_the_batch() {
    let mut settings = BatchSettings::new();
    assert!(!settings.change(SettingChange::Quality(90)));
    assert!(!settings.change(SettingChange::Format(OutputFormat::Jpeg)));
    assert!(settings.change(SettingChange::Turn(Rotation::Cw90)));
    let config = settings.build_config(&path("/out"));
    assert_eq!((config.quality, config.rotation), (90, Rotation::Cw90));
    assert_eq!(config.output_format, OutputFormat::Jpeg);
    assert_eq!(config.output_dir.display_text(), "/out");
    assert!(config.text_overlay.is_none() && config.watermark.is_none());
    assert!(is_plain_preview(&config));

    settings.change(SettingChange::TextEnabled(true));
    settings.change(SettingChange::Template("No {n}".to_string()));
    settings.change(SettingChange::TextPlace(TextPosition::TopLeft));
    settings.change(SettingChange::FontSize(score(40.0)));
    settings.change(SettingChange::TextMargin(12));
    settings.change(SettingChange::Color(1, 2, 3));
    let config = settings.build_config(&path("/out"));
    assert!(!is_plain_preview(&config));
    let text = config.text_overlay.unwrap();
    assert_eq!((text.text_template.as_str(), text.margin), ("No {n}", 12));
    assert_eq!((text.position, text.font_size), (TextPosition::TopLeft, score(40.0)));
    assert_eq!((text.color.r, text.color.g, text.color.b, text.color.a), (1, 2, 3, 255));
}

#[test]
fn margins_count_only_where_asked_for() {
    let mut settings = BatchSettings::new();
    settings.change(SettingChange::PosterMargin(60));
    assert_eq!(settings.build_poster_options().margin_px, 0);
    settings.change(SettingChange::PosterMarginEnabled(true));
    assert_eq!(settings.build_poster_options().margin_px, 60);
    settings.change(SettingChange::PosterResize(true));
    assert!(settings.build_poster_options().resize_to_33x66cm);
}

#[test]
fn watermarks_need_an_image() {
    let mut settings = BatchSettings::new();
    settings.change(SettingChange::WatermarkEnabled(true));
    assert!(settings.build_watermark_config().is_none());
    settings.change(SettingChange::WatermarkImage(path("/logo.png")));
    settings.change(SettingChange::WatermarkPlace(TextPosition::TopRight));
    settings.change(SettingChange::WatermarkMargin(5));
    settings.change(SettingChange::WatermarkScale(score(50.0)));
    settings.change(SettingChange::WatermarkOpacity(score(0.5)));
    settings.change(SettingChange::WatermarkTurn(WatermarkRotation::Fixed(Rotation::Cw180)));
    let mark = settings.build_watermark_config().unwrap();
    assert_eq!(mark.image_path.display_text(), "/logo.png");
    assert_eq!((mark.position, mark.margin), (TextPosition::TopRight, 5));
    assert_eq!((mark.scale_percent, mark.opacity), (score(50.0), score(0.5)));
    assert_eq!(mark.rotation, WatermarkRotation::Fixed(Rotation::Cw180));
    settings.change(SettingChange::WatermarkEnabled(false));
    assert!(settings.build_watermark_config().is_none());
}

#[test]
fn folders_list_their_images_in_order() {
    let mut state = AppState::new();
    assert_eq!(state.run.status_message, "Ready - Open a folder to begin");
    let found = vec![path("/in/b.jpg"), path("/in/list.txt"), path("/in/a.png")];
    assert!(state.open_folder(found));
    assert_eq!(state.image_names, ["a.png", "b.jpg"]);
    assert_eq!(state.selected_index, Some(0));
    assert_eq!(state.run.status_message, "Loaded 2 images");
    assert!(!state.open_folder(vec![]));
    assert_eq!(state.selected_index, None);
}

#[test]
fn batches_start_when_nothing_is_missing() {
    let mut state = AppState::new();
    assert!(state.start_batch().is_none());
    assert_eq!(state.run.status_message, "No images loaded");
    let mut state = opened(&["/in/a.jpg"]);
    assert!(state.start_batch().is_none());
    assert_eq!(state.run.status_message, "Select an output folder first");
    state.choose_output_dir(path("/out"));
    assert_eq!(state.run.status_message, "Output: /out");
    state.settings.change(SettingChange::WatermarkEnabled(true));
    assert!(state.start_batch().is_none());
    assert_eq!(state.run.status_message, "Select a watermark image first");
    state.settings.change(SettingChange::WatermarkImage(path("/logo.png")));
    let (images, config) = state.start_batch().unwrap();
    assert_eq!(images.len(), 1);
    assert_eq!(config.output_dir.display_text(), "/out");
    assert!(state.run.is_processing && state.render().shows_progress);
    assert_eq!(state.run.status_message, "Processing...");
}

#[test]
fn ends_of_batches_are_told() {
    let mut state = opened(&["/in/a.jpg"]);
    assert!(matches!(state.render_settings(score(25.0)).results, ResultRows::Nothing));
    state.finish_batch(vec![exported("/in/a.jpg", None)]);
    assert_eq!(state.run.status_message, "Done - 1 succeeded, 0 failed out of 1 total");
    assert_eq!(state.run.progress, score(1.0));
    assert!(matches!(state.render_settings(score(25.0)).results, ResultRows::AllWell));
    let mut results: Vec<ProcessResult> =
        (0..7).map(|i| exported(&format!("/in/{}.jpg", i), Some("no room"))).collect();
    results.push(exported("/in/a.jpg", None));
    state.finish_batch(results);
    assert_eq!(state.run.status_message, "Done - 1 succeeded, 7 failed out of 8 total");
    match state.render_settings(score(25.0)).results {
        ResultRows::Failures(lines) => {
            assert_eq!(lines.len(), 5);
            assert_eq!(lines[0], "❌ 0.jpg: no room");
        }
        other => panic!("{:?}", other),
    }
}

#[test]
fn unreadable_images_are_passed_over() {
    let mut state = opened(&["/in/a.jpg", "/in/b.jpg"]);
    let first = state.schedule_preview_update().unwrap();
    assert_eq!(first.path.display_text(), "/in/a.jpg");
    let second = state.schedule_preview_update().unwrap();
    assert!(!state.is_current(first.version) && state.is_current(second.version));
    assert_eq!(state.finish_preview(&first, true), PreviewOutcome::Outdated);
    assert_eq!(state.finish_preview(&second, true), PreviewOutcome::Show);
    assert_eq!(state.finish_preview(&second, false), PreviewOutcome::Clear { next: true });
    assert_eq!(state.selected_index, Some(1));
    assert_eq!(state.run.status_message, "Skipping unreadable image: a.jpg");
    let last = state.schedule_preview_update().unwrap();
    assert_eq!(state.finish_preview(&last, false), PreviewOutcome::Clear { next: false });
    assert_eq!(state.selected_index, Some(1));
    assert!(AppState::new().schedule_preview_update().is_none());
    state.preview_version = usize::MAX;
    assert_eq!(state.schedule_preview_update().unwrap().version, 0);
}

#[test]
fn the_nearest_images_are_made_ready() {
    let mut state = opened(&["a.jpg", "b.jpg", "c.jpg", "d.jpg", "e.jpg"]);
    let ready = |s: &AppState| -> Vec<String> {
        s.preload_adjacent().iter().map(|p| p.display_text()).collect()
    };
    state.select_image(2);
    assert_eq!(ready(&state), ["b.jpg", "d.jpg", "a.jpg", "e.jpg"]);
    state.select_image(0);
    assert_eq!(ready(&state), ["b.jpg", "c.jpg"]);
    state.select_image(4);
    assert_eq!(ready(&state), ["d.jpg", "c.jpg"]);
    assert!(AppState::new().preload_adjacent().is_empty());
}

#[test]
fn settings_show_what_was_chosen() {
    let mut state = AppState::new();
    let view = state.render_settings(score(25.0));
    assert_eq!(view.quality_title, "JPEG Quality: 70%");
    assert!(view.font_size_title.is_none() && view.watermark_label.is_none());
    assert_eq!((view.output_label.as_str(), view.process_label.as_str()), ("Not set", "Process All"));
    assert!(view.can_process);
    state.settings.change(SettingChange::TextEnabled(true));
    state.settings.change(SettingChange::PosterMarginEnabled(true));
    state.settings.change(SettingChange::WatermarkEnabled(true));
    state.choose_output_dir(path("/"));
    let view = state.render_settings(score(25.0));
    assert_eq!(said(&view.font_size_title.unwrap()), "Font Size: 24px");
    assert_eq!(view.text_margin_title.unwrap(), "Edge Margin: 10 px");
    assert_eq!(view.poster_margin_title.unwrap(), "Margin: 40 px");
    assert_eq!(view.watermark_label.unwrap(), "Not selected");
    assert_eq!(view.watermark_margin_title.unwrap(), "Edge Margin: 10 px");
    assert_eq!(said(&view.watermark_size_title.unwrap()), "Size: 100%");
    assert_eq!(said(&view.watermark_opacity_title.unwrap()), "Opacity: 25%");
    assert_eq!(view.output_label, "Selected");
}

#[test]
fn the_status_belongs_to_the_batch() {
    let mut state = AppState::new();
    let frame = state.render();
    assert_eq!(frame.tabs.len(), 3);
    assert_eq!(frame.tabs[2].label, "Sorting");
    assert_eq!(frame.status.unwrap(), "Ready - Open a folder to begin");
    state.set_mode(AppMode::Sorting);
    let frame = state.render();
    assert_eq!(frame.active, AppMode::Sorting);
    assert!(frame.status.is_none() && !frame.shows_progress);
}

#[test]
fn sorting_starts_once_for_a_folder() {
    let mut state = SortingState::new();
    assert_eq!(state.status_message, "Select a folder of numbered files to sort");
    assert!(state.start_sorting().is_none());
    assert_eq!(state.status_message, "Select a sorting folder first");
    state.choose_sorting_source_dir(path("/photos/in"));
    assert_eq!(state.status_message, "Sorting source: /photos/in");
    assert_eq!(state.render_sorting().start_label, "Move Into Number Folders");
    state.set_copy_files(true);
    assert_eq!(state.status_message, "Copy mode enabled - originals will stay in place");
    assert_eq!(state.render_sorting().start_label, "Copy Into Number Folders");
    state.report_progress(score(0.5));
    assert_eq!(state.progress, score(0.0));
    let config = state.start_sorting().unwrap();
    assert_eq!(config.mode, NumberedSortMode::Copy);
    assert_eq!(config.source_dir.display_text(), "/photos/in");
    assert!(state.start_sorting().is_none());
    state.report_progress(score(0.5));
    assert_eq!(state.progress, score(0.5));
    let view = state.render_sorting();
    assert_eq!((view.folder_label.as_str(), view.start_label.as_str()), ("in", "Sorting..."));
    assert!(!view.can_start && view.summary.is_none());
    state.set_copy_files(false);
    assert_eq!(
        state.status_message,
        "Move mode enabled - files will be moved into number folders"
    );
}

#[test]
fn ends_of_sorting_are_told() {
    let mut state = SortingState::new();
    let summary =
        NumberedSortSummary { discovered: 12, sorted: 1, failed: 10, skipped: 1, folders_created: 1 };
    let mut results = vec![sorted("/in/82.jpg", true)];
    results.extend((0..10).map(|i| sorted(&format!("/in/82 ({}).jpg", i), false)));
    state.finish_sorting(summary, results);
    assert_eq!(
        state.status_message,
        "Sorting complete - 1 sorted, 10 failed, 1 skipped, 1 folders created"
    );
    let view = state.render_sorting();
    assert_eq!(
        view.summary.unwrap(),
        "12 discovered, 1 sorted, 10 failed, 1 skipped, 1 folders created"
    );
    assert_eq!(view.failures.len(), 8);
    assert_eq!(view.failures[0], "❌ 82 (0).jpg → no destination (number 82): no room");
}
