use gpu_mem::{DeviceError, DeviceMemory, DeviceVec};

#[test]
fn allocation_over_capacity_fails() {
    let mut dev: DeviceMemory<u32> = DeviceMemory::with_capacity(8);
    let r = DeviceVec::from_host(&mut dev, &[1, 2, 3]);
    assert_eq!(r.unwrap_err(), DeviceError::AllocationFailed);
    assert_eq!(dev.used(), 0);
    assert_eq!(dev.capacity(), 8);
}

#[test]
fn allocation_up_to_capacity_succeeds() {
    let mut dev: DeviceMemory<u32> = DeviceMemory::with_capacity(12);
    let h = DeviceVec::from_host(&mut dev, &[1, 2, 3]).unwrap();
    assert_eq!(dev.used(), 12);
    assert_eq!(h.try_clone(&mut dev).unwrap_err(), DeviceError::AllocationFailed);
    assert_eq!(dev.used(), 12);
    assert_eq!(DeviceVec::from_host(&mut dev, &[9]).unwrap_err(), DeviceError::AllocationFailed);
    assert_eq!(h.release(&mut dev), Ok(()));
    let again = DeviceVec::from_host(&mut dev, &[4, 5, 6]).unwrap();
    assert_eq!(again.to_host(&dev).unwrap(), vec![4, 5, 6]);
}

#[test]
fn handle_of_another_device_is_invalid() {
    let mut dev = DeviceMemory::new();
    let other: DeviceMemory<i32> = DeviceMemory::new();
    let h = DeviceVec::from_host(&mut dev, &[1i32, 2]).unwrap();
    assert_eq!(h.to_host(&other), Err(DeviceError::InvalidHandle));
    let mut other = other;
    assert_eq!(h.try_clone(&mut other).unwrap_err(), DeviceError::InvalidHandle);
    let h2 = DeviceVec::from_host(&mut dev, &[3i32]).unwrap();
    assert_eq!(h2.release(&mut other), Err(DeviceError::InvalidHandle));
    assert_eq!(dev.release_count(h.as_device_ptr()), 0);
}

#[test]
fn handle_of_another_size_fails_the_transfer() {
    let mut dev = DeviceMemory::new();
    let mut other = DeviceMemory::new();
    let h = DeviceVec::from_host(&mut dev, &[1i32, 2]).unwrap();
    let _k = DeviceVec::from_host(&mut other, &[7i32, 8, 9]).unwrap();
    assert_eq!(h.to_host(&other), Err(DeviceError::TransferFailed));
    assert_eq!(h.try_clone(&mut other).unwrap_err(), DeviceError::TransferFailed);
}

#[test]
fn raw_operations_report_their_faults() {
    let mut dev: DeviceMemory<u8> = DeviceMemory::new();
    assert_eq!(dev.free(0), Err(DeviceError::InvalidHandle));
    assert_eq!(dev.store(3, 0, 1), Err(DeviceError::InvalidHandle));
    assert_eq!(dev.download(0, 0), Err(DeviceError::InvalidHandle));
    let p = dev.upload(&[1, 2]).unwrap();
    assert_eq!(dev.store(p, 2, 1), Err(DeviceError::TransferFailed));
    assert_eq!(dev.download(p, 3), Err(DeviceError::TransferFailed));
    assert_eq!(dev.duplicate(p, 1), Err(DeviceError::TransferFailed));
    let q = dev.duplicate(p, 2).unwrap();
    assert_eq!(dev.download(q, 2), Ok(vec![1, 2]));
    assert_eq!(dev.free(p), Ok(()));
    assert_eq!(dev.store(p, 0, 1), Err(DeviceError::InvalidHandle));
    assert_eq!(dev.duplicate(p, 2), Err(DeviceError::InvalidHandle));
}
