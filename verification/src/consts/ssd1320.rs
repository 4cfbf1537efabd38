//! SSD1320 constants.

use vstd::prelude::*;

verus! {

/// The maximum supported display size width in pixels.
pub const NUM_PIXELS_COLS: u16 = 160;

/// The maximum supported display size height in pixels.
pub const NUM_PIXELS_ROWS: u16 = 160;

/// The number of display RAM column addresses.
pub const NUM_BUF_COLS: u16 = 80;

/// The highest valid pixel column index.
pub const PIXEL_COL_MAX: u16 = 159;

/// The highest valid pixel row index.
pub const PIXEL_ROW_MAX: u16 = 159;

/// The highest valid display RAM column address.
pub const BUF_COL_MAX: u16 = 79;

} // verus!
