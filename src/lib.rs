//! Finds a word in a raster image and blacks out every place where it
//! appears: thresholds for the text mask, the filter that keeps text-shaped
//! blobs, matching of recognized text against the target, and redaction of
//! the pixel buffer.

pub mod image;
pub mod matching;
pub mod pipeline;
pub mod region;
pub mod thresholds;
