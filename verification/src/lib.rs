//! Peak (minimum / maximum) summaries of sampled waveforms.
//!
//! A waveform is cut into fixed-size chunks and each chunk is reduced to the
//! lowest and the highest sample it holds. The resulting peak scan is what a
//! renderer draws, one column per chunk.
pub mod utils;
pub mod peaks;
pub mod scan;
pub mod texture;
pub mod image;
pub mod shader;
