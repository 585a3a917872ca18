//! Face anonymization core: crops detected face regions out of an RGBA image,
//! degrades each region by resampling at a caller-chosen intensity, and
//! recomposes the degraded regions into the full image, leaving every pixel
//! outside the regions untouched.

pub mod args;
pub mod face;
pub mod raster;

use vstd::prelude::*;

verus! {

/// An error of the anonymization core itself. The decode, detection and
/// encode stages report their own failures at the input/output boundary.
#[derive(Clone, Copy, Debug, PartialEq, Eq, Structural)]
pub enum KuraError {
    /// The intensity was zero, which would collapse every region.
    InvalidIntensity,
}

/// A degradation algorithm for a face region: a smooth downscale followed by a
/// blocky upscale (`PixelBlur`), a smooth downscale and smooth upscale
/// (`GaussianBlur`), or a blocky downscale and blocky upscale (`Pixelated`).
#[derive(Clone, Copy, Debug, PartialEq, Eq, Structural)]
pub enum KuraFilter {
    PixelBlur,
    GaussianBlur,
    Pixelated,
}

} // verus!
