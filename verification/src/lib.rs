//! Verified core of a small batch image tool.
//!
//! The library holds the three per-image transforms (block-average
//! pixelation, opacity-mask compositing, and anchored or centred cropping),
//! the parameter validation rules, the output naming rules shared by every
//! batch run, and the menu dispatch table. Decoding and encoding image
//! files, file-picker dialogs and console reads live outside the library;
//! they hand plain values in and take plain values back.

pub mod batch;
pub mod error;
pub mod menu;
pub mod raster;
pub mod tools;
pub mod utils;
