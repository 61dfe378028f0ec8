//! Numbering and sorting of event photographs.

pub mod app_state;
pub mod autonomous;
pub mod autonomous_window;
pub mod batch;
pub mod collections;
pub mod db;
pub mod embedding;
pub mod event_config;
pub mod image_cache;
pub mod image_loader;
pub mod image_ops;
pub mod note;
pub mod number_cropper;
pub mod numbered_sort;
pub mod numbering_mode;
pub mod numbering_session;
pub mod numbering_state;
pub mod ocr;
pub mod ocr_cache;
pub mod ocr_engine;
pub mod ocr_result;
pub mod ocr_setup;
pub mod paths;
pub mod pipeline;
pub mod ranking;
pub mod raster;
pub mod score;
pub mod sorter;
pub mod sticker_matcher;
pub mod template_search;
pub mod text;
pub mod vector_experiment;
pub mod visual_matcher;
