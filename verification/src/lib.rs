//! Multi-modal media analysis: frame sampling bookkeeping, detection backends,
//! timestamp alignment of detections with transcript spans, and batch reporting.
//!
//! Real quantities (seconds, confidences, pixel coordinates) are held as whole
//! millionths, so every contract is stated over integers.

pub mod audio_processor;
pub mod batch_processor;
pub mod config;
pub mod file_names;
pub mod frame_analyzer;
pub mod ml_backend;
pub mod results_document;
pub mod results_parser;
pub mod scanning;
pub mod summary;
pub mod synchronizer;
pub mod text;
pub mod video_processor;
