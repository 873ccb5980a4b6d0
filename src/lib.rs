//! Owned handles over device memory: a buffer is placed on the device from a
//! host slice, read back, duplicated on the device and released exactly once.

pub mod buffer;
pub mod device;
pub mod error;

pub use buffer::DeviceVec;
pub use device::DeviceMemory;
pub use error::DeviceError;
