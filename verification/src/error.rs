//! Error type for the MR2xH40 command driver.

use vstd::prelude::*;

verus! {

/// MR2xH40 driver error: either a transport-level failure reported by the
/// serial bus, or an out-of-bounds access that was rejected before any bus
/// transaction was issued.
#[derive(Debug, PartialEq, Eq)]
pub enum Error<SpiError> {
    /// SPI transport-level error.
    Spi(SpiError),
    /// Read or write range exceeded the chip capacity.
    OutOfBounds {
        /// Starting address requested.
        offset: u32,
        /// Requested operation length in bytes.
        len: usize,
        /// Device capacity in bytes.
        capacity: u32,
    },
}

impl<SpiError> Error<SpiError> {
    /// Builds the out-of-bounds error for the given rejected access.
    pub fn out_of_bounds(offset: u32, len: usize, capacity: u32) -> (e: Self)
        ensures
            e == (Error::<SpiError>::OutOfBounds { offset, len, capacity }),
    {
        Error::OutOfBounds { offset, len, capacity }
    }
}

} // verus!
