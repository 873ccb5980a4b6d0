use vstd::prelude::*;

verus! {

/// Why a device operation did not take place. A failed operation leaves the
/// device as it was.
#[derive(Debug, Clone, Copy, PartialEq, Eq, Structural)]
pub enum DeviceError {
    /// The device cannot hold the requested region: its capacity would be
    /// exceeded, the byte count does not fit in `usize`, or the address space
    /// is spent.
    AllocationFailed,
    /// A copy or store does not fit the region it targets.
    TransferFailed,
    /// The address names no live region.
    InvalidHandle,
}

} // verus!
