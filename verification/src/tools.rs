//! The three per-image transforms.

pub mod apply_opacity_mask;
pub mod naive_crop;
pub mod pixelate;
