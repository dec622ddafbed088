//! Concatenative resynthesis of 16-bit mono audio: a target recording is cut
//! into chunks, each chunk is replaced by the closest-sounding stretch of a
//! paint recording, and the pieces are overlaid with linear crossfades,
//! blended with the target and peak-normalized.

pub mod arith;
pub mod chunk_matching;
pub mod config;
pub mod crossfade;
pub mod laws;
pub mod pipeline;
pub mod progress;
pub mod render;
pub mod sample_span;
pub mod tidy;
