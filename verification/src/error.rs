//! The two kinds of fault that the hardware can report.

use vstd::prelude::*;

verus! {

/// A fault met while operations were carried out.
#[derive(Debug, PartialEq, Eq)]
pub enum Error<CommE, PinE> {
    /// A write through the transport failed.
    Comm(CommE),
    /// A line could not be driven.
    Pin(PinE),
}

} // verus!
