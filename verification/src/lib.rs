//! A verified core for a sprite-mosaic optimizer: a population-based local
//! search that approximates a fixed target raster by repeatedly pasting
//! tinted copies of pre-rendered sprites onto a canvas.
//!
//! All color and geometry arithmetic is carried out in integer fixed point,
//! so every step of the optimizer is a deterministic function of its inputs
//! and the random seed.
pub mod atlas;
pub mod color;
pub mod commit;
pub mod encode;
pub mod engine;
pub mod fitness;
pub mod geom;
pub mod image;
pub mod rng;

pub use rng::SplitMix;
