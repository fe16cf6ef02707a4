//! The names of the stages of processing at which a page can be previewed.

use vstd::prelude::*;

verus! {

/// The page as it was scanned.
pub const ORIGINAL: &'static str = "original";

/// The page set straight.
pub const DESKEWED: &'static str = "deskewed";

/// The page with its margins cut.
pub const TRIMMED: &'static str = "trimmed";

/// The page enlarged.
pub const UPSCALED: &'static str = "upscaled";

/// The page brought to the common size.
pub const NORMALIZED: &'static str = "normalized";

/// The page with its colors corrected.
pub const COLOR_CORRECTED: &'static str = "color_corrected";

/// The page as it is written out.
pub const FINAL: &'static str = "final";

} // verus!
