//! Caller-facing configuration: the filter choice offered on the command line
//! and the parsed run parameters handed to the core.

use vstd::prelude::*;

use crate::KuraFilter;

verus! {

/// The filter options a caller can choose between. Each option selects a
/// distinct degradation algorithm.
#[derive(Clone, Copy, Debug, PartialEq, Eq, Structural)]
pub enum FilterType {
    /// Soft blur: smooth downscale and smooth upscale.
    Gaussian,
    /// Blocky blur: smooth downscale, nearest-neighbour upscale.
    PixelBlur,
    /// Hard pixel blocks: nearest-neighbour downscale and upscale.
    Pixelated,
}

/// What the filter option means to the core.
pub open spec fn filter_of(t: FilterType) -> KuraFilter {
    match t {
        FilterType::Gaussian => KuraFilter::GaussianBlur,
        FilterType::PixelBlur => KuraFilter::PixelBlur,
        FilterType::Pixelated => KuraFilter::Pixelated,
    }
}

impl From<FilterType> for KuraFilter {
    fn from(t: FilterType) -> (r: KuraFilter)
        ensures
            r == filter_of(t),
    {
        match t {
            FilterType::Gaussian => KuraFilter::GaussianBlur,
            FilterType::PixelBlur => KuraFilter::PixelBlur,
            FilterType::Pixelated => KuraFilter::Pixelated,
        }
    }
}

impl vstd::std_specs::convert::FromSpecImpl<FilterType> for KuraFilter {
    open spec fn obeys_from_spec() -> bool {
        true
    }

    open spec fn from_spec(t: FilterType) -> KuraFilter {
        filter_of(t)
    }
}

/// One anonymization run, as parsed from the command line: the filter and
/// intensity to apply, the detector model path, and the source and
/// destination image paths.
#[derive(Debug)]
pub struct KuraParser {
    /// Which degradation filter to apply.
    pub filter: FilterType,
    /// Path of the detector's model resource.
    pub model: String,
    /// Degradation strength: the divisor of the region dimensions.
    pub intensity: u32,
    /// Path of the source image.
    pub image: String,
    /// Path of the output image.
    pub output: String,
}

} // verus!
