//! Compatibility adapter for running the driver over a blocking serial bus.
//!
//! The adapter owns the blocking device and performs each transaction at
//! the point the asynchronous driver would await it; it buffers nothing and
//! surfaces the inner device's errors unchanged. The trait plumbing that
//! presents the adapter through the asynchronous bus interface lives with
//! the unverified platform code, which drives the command plans of
//! [`crate::driver`] over the wrapped device.

use vstd::prelude::*;

verus! {

/// Adapter that exposes a blocking SPI device where an asynchronous one is
/// required.
pub struct BlockingToAsync<SPI> {
    inner: SPI,
}

impl<SPI> BlockingToAsync<SPI> {
    /// The wrapped device.
    pub closed spec fn inner_spec(&self) -> SPI {
        self.inner
    }

    /// Creates a new adapter.
    pub fn new(inner: SPI) -> (r: Self)
        ensures
            r.inner_spec() == inner,
    {
        BlockingToAsync { inner }
    }

    /// Returns the wrapped blocking SPI device.
    pub fn into_inner(self) -> (r: SPI)
        ensures
            r == self.inner_spec(),
    {
        self.inner
    }

    /// Mutable reference to the wrapped blocking SPI device.
    pub fn inner_mut(&mut self) -> (r: &mut SPI)
        ensures
            *r == old(self).inner_spec(),
            final(self).inner_spec() == *final(r),
    {
        &mut self.inner
    }
}

} // verus!
