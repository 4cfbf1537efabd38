//! SSD1320Z2 (Surenoo SUR383S1000WG01 display) constants.

use vstd::prelude::*;

verus! {

/// The maximum supported display size width in pixels.
pub const NUM_PIXELS_COLS: u16 = 320;

/// The maximum supported display size height in pixels.
pub const NUM_PIXELS_ROWS: u16 = 132;

/// The number of display RAM column addresses.
pub const NUM_BUF_COLS: u16 = 160;

/// The highest valid pixel column index.
pub const PIXEL_COL_MAX: u16 = 319;

/// The highest valid pixel row index.
pub const PIXEL_ROW_MAX: u16 = 131;

/// The number of bytes in a packed plane of the whole surface.
pub const NUM_BUF_BYTES: usize = 21120;

} // verus!
