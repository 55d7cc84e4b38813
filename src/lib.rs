//! An image browser's core: the metadata cache and its extraction protocol,
//! the image pipeline's decisions, and the preload window manager.
pub mod callback;
pub mod config;
pub mod db;
pub mod display_name;
pub mod entry;
pub mod fields;
pub mod formats;
pub mod metadata;
pub mod multi_gallery;
pub mod paths;
pub mod perf_metrics;
pub mod raster;
pub mod pipeline;
pub mod single_gallery;
pub mod text;
pub mod user_action;
pub mod window;
pub mod worker;
