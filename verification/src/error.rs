//! Typed failures of the library.

use vstd::prelude::*;

verus! {

/// Failures surfaced by image construction, cropping, and by adapters that
/// turn a foreign image into raw samples.  Construction and range errors are
/// caller-correctable: the caller may retry with corrected input.
#[derive(Clone, Debug, PartialEq, Eq)]
pub enum Error {
    /// The raw byte buffer holds fewer than `width * height` samples, or one
    /// of the dimensions is zero.
    InvalidDimensions,
    /// A crop rectangle whose minimum corner exceeds its maximum corner.
    InvalidRange,
    /// An external image handle could not be interpreted as a
    /// `(width, height, bytes)` triple; the text names the handle.
    Conversion(String),
}

} // verus!
