//! Why a rendering request is refused.

use vstd::prelude::*;

verus! {

/// The reasons for which the library refuses a request.
#[derive(Clone, Copy, Debug, PartialEq, Eq, Structural)]
pub enum RenderError {
    /// A stride is zero, or the image is too small to hold one whole cell in
    /// each direction, so that the frame would have no row or no column.
    InvalidSampleGeometry,
    /// The requested combination of glyph set and output format does not
    /// name exactly one rendering strategy.
    UnsupportedConfiguration,
    /// The image holds floating-point samples. Such a sample need not be a
    /// number, and then has no colour of eight bits per channel.
    UnsupportedImage,
}

} // verus!
