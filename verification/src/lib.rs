//! Half-block terminal art.
//!
//! A raster image is shrunk by an integer factor until it fits a terminal's
//! character grid, every square of source pixels is averaged into one colour,
//! and two rows of such colours are drawn per terminal line with the upper
//! half-block glyph: the upper row as foreground, the lower as background.
//!
//! Every function here is verified against a contract over mathematical
//! models of the data. The only unverified code is the three calls into
//! `termion` that spell a colour or a style reset as an escape sequence.

pub mod ansi;
pub mod cli;
pub mod color;
pub mod downscale;
pub mod error;
pub mod raster;
pub mod rasterizer;
pub mod sampler;
pub mod text;
