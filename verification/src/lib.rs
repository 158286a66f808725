//! Locating colours and template images inside pixel buffers, and reading
//! short digit strings off a scored glyph set.
//!
//! Every function here works on plain values; capturing the screen, decoding
//! image files and the numerical scoring of a template against a source are
//! left to the caller.
pub mod array3;
pub mod color_detection;
pub mod confidence_map;
pub mod deduplication;
pub mod digit_recognition;
pub mod image_match;
pub mod image_match_error;
pub mod math_utils;
pub mod pixel_buffer;
pub mod ranking;
pub mod reading_laws;
pub mod saving;
pub mod screenshot;
pub mod screenshot_error;
pub mod types;
