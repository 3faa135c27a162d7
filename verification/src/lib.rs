//! Batch image crop-and-resize engine.
//!
//! Given per-image normalized crop parameters, this library computes
//! pixel-space crop rectangles, crops and resizes decoded pixel buffers,
//! and assembles a batch of results into one flat, strided output buffer.
//! File reading, thread-pool fan-out and the foreign image-processing
//! backend live outside this crate; everything here is verified.

pub mod dispatch;
pub mod errors;
pub mod format;
pub mod geometry;
pub mod manager;
pub mod pixels;
