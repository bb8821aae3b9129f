//! Pixel pipeline: ordered dithering methods, the mono conversion pipeline,
//! error-diffusion dithering, and rotation.

pub mod dithering;
pub mod mono;
pub mod rotate;

pub use mono::MonoImgproc;
pub use rotate::Rotation;

use crate::image::Size;
use vstd::prelude::*;

verus! {

/// Ordered dithering pattern for the mono pipeline.
#[derive(Clone, Copy, Debug, PartialEq, Eq, Structural)]
pub enum DitheringMethod {
    /// A flat threshold of 128.
    NoDithering,
    /// A 2x2 Bayer matrix, tiled.
    Bayers2,
    /// A 4x4 Bayer matrix.
    Bayers4,
}

/// Geometry of the mono pipeline: input frame size, panel size, and the
/// rotation between them.
#[derive(Clone, Copy, Debug, PartialEq, Eq, Structural)]
pub struct MonoImgprocOptions {
    pub input_size: Size,
    pub output_size: Size,
    pub rotation: Rotation,
}

} // verus!
