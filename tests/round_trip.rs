use gpu_mem::{DeviceError, DeviceMemory, DeviceVec};

#[test]
fn round_trip() {
    let hvec: Vec<i32> = (0..100).collect();
    let mut dev = DeviceMemory::new();
    let dvec = DeviceVec::from_host(&mut dev, &hvec).unwrap();
    assert_eq!(hvec, dvec.to_host(&dev).unwrap());
}

#[test]
fn round_trip_keeps_every_element() {
    let hvec: Vec<u64> = vec![u64::MAX, 0, 7, 7, 42];
    let mut dev = DeviceMemory::new();
    let dvec = DeviceVec::from_host(&mut dev, &hvec).unwrap();
    assert_eq!(dvec.to_host(&dev).unwrap(), vec![u64::MAX, 0, 7, 7, 42]);
    assert_eq!(dvec.to_host(&dev).unwrap(), hvec);
}

#[test]
fn round_trip_of_pairs() {
    let hvec: Vec<(u8, i16)> = vec![(1, -1), (2, -2), (255, i16::MIN)];
    let mut dev = DeviceMemory::new();
    let dvec = DeviceVec::from_host(&mut dev, &hvec).unwrap();
    assert_eq!(dvec.to_host(&dev).unwrap(), hvec);
}

#[test]
fn empty_buffer_round_trips_to_empty() {
    let empty: Vec<u32> = Vec::new();
    let mut dev = DeviceMemory::new();
    let dvec = DeviceVec::from_host(&mut dev, &empty).unwrap();
    assert_eq!(dvec.len(), 0);
    assert_ne!(dvec.as_device_ptr(), 0);
    assert_eq!(dev.used(), 0);
    assert_eq!(dvec.to_host(&dev).unwrap(), Vec::<u32>::new());
    let ptr = dvec.as_device_ptr();
    assert_eq!(dvec.release(&mut dev), Ok(()));
    assert_eq!(dev.release_count(ptr), 1);
}

#[test]
fn empty_buffer_fits_a_full_device() {
    let mut dev: DeviceMemory<u32> = DeviceMemory::with_capacity(0);
    let dvec = DeviceVec::from_host(&mut dev, &[]).unwrap();
    assert_eq!(dvec.to_host(&dev).unwrap(), Vec::<u32>::new());
}

#[test]
fn length_is_host_length() {
    let mut dev = DeviceMemory::new();
    for n in [0usize, 1, 2, 17, 100] {
        let hvec: Vec<u16> = (0..n as u16).collect();
        let dvec = DeviceVec::from_host(&mut dev, &hvec).unwrap();
        assert_eq!(dvec.len(), n);
        assert_eq!(dvec.to_host(&dev).unwrap().len(), n);
    }
}

#[test]
fn bytes_in_use_follow_element_size() {
    let mut dev = DeviceMemory::new();
    let a = DeviceVec::from_host(&mut dev, &[1u64, 2, 3]).unwrap();
    assert_eq!(dev.used(), 24);
    let b = a.try_clone(&mut dev).unwrap();
    assert_eq!(dev.used(), 48);
    assert_eq!(a.release(&mut dev), Ok(()));
    assert_eq!(dev.used(), 24);
    assert_eq!(b.release(&mut dev), Ok(()));
    assert_eq!(dev.used(), 0);
}

#[test]
fn addresses_are_distinct_and_never_reused() {
    let mut dev = DeviceMemory::new();
    let a = DeviceVec::from_host(&mut dev, &[1u8]).unwrap();
    let pa = a.as_device_ptr();
    assert_eq!(a.release(&mut dev), Ok(()));
    let b = DeviceVec::from_host(&mut dev, &[1u8]).unwrap();
    let c = DeviceVec::from_host(&mut dev, &[1u8]).unwrap();
    assert_ne!(b.as_device_ptr(), pa);
    assert_ne!(c.as_device_ptr(), pa);
    assert_ne!(b.as_device_ptr(), c.as_device_ptr());
    assert!(!dev.is_live(pa));
    assert!(dev.is_live(b.as_device_ptr()));
}

#[test]
fn mutable_pointer_is_the_device_address() {
    let mut dev = DeviceMemory::new();
    let mut dvec = DeviceVec::from_host(&mut dev, &[5i32, 6]).unwrap();
    let p = dvec.as_device_ptr();
    assert_eq!(dvec.as_mut_device_ptr(), p);
    assert_eq!(dvec.len(), 2);
}
