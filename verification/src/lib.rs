//! Normalization pipeline for raster images of printed formulas.
//!
//! An input picture is brought to a fixed-size, dark-ink-on-light,
//! high-contrast canvas in four steps: polarity detection and correction,
//! contrast enhancement, content cropping, and aspect-ratio-preserving
//! placement on a blank canvas.

pub mod canvas;
pub mod config;
pub mod contrast;
pub mod crop;
pub mod error;
pub mod gray;
pub mod pipeline;
pub mod polarity;
