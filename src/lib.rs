//! Alpha compositing of one RGBA raster onto another at an integer offset.

pub mod blend;
pub mod color;
pub mod image;

pub use blend::{alpha_blend, alpha_blend_mut, blend_pixels};
pub use color::{RGBA, Strength};
pub use image::{Image, ImageModel, ImagePixel};
