//! Constants describing the supported display sizes and the display RAM layout.

pub mod ssd1320;
pub mod ssd1320z2;
