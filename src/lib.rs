//! Colour filter array simulation: turning an RGB image into a Bayer mosaic
//! and reconstructing a full-colour image from it.
pub mod cfa;
pub mod chroma;
pub mod raster;
pub mod bayer;
pub mod laws;

pub use bayer::{cast_rgb_to_bayer_mosaic, demosaic, demosaic_rayon};
pub use raster::{GrayImage, RgbImage};
