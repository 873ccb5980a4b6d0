use vstd::layout::size_of;
use vstd::prelude::*;

use crate::device::DeviceMemory;
use crate::error::DeviceError;

verus! {

/// An owned region of device memory holding `len` elements of `T`.
///
/// The handle is the only owner of its region: `try_clone` gives the copy a
/// region of its own, and `release` consumes the handle, so a region goes
/// back to the device once. A handle that is dropped without `release` keeps
/// its region live on the device.
#[derive(Debug)]
#[must_use]
pub struct DeviceVec<T> {
    ptr: usize,
    len: usize,
    elem: core::marker::PhantomData<T>,
}

impl<T: Copy> DeviceVec<T> {
    /// The device address of the region.
    pub closed spec fn addr(&self) -> usize {
        self.ptr
    }

    /// The element count fixed at construction.
    pub closed spec fn spec_len(&self) -> usize {
        self.len
    }

    /// The region is live on `dev` and holds `len` elements.
    pub open spec fn valid_in(&self, dev: DeviceMemory<T>) -> bool {
        dev.holds(self.addr(), self.spec_len() as nat)
    }

    /// What the region holds on `dev`.
    pub open spec fn contents_in(&self, dev: DeviceMemory<T>) -> Seq<T> {
        dev.regions()[self.addr()]
    }

    /// `self` was built on a fresh region of `before` that holds `data`, and
    /// nothing else changed from `before` to `after` but the bytes in use.
    pub open spec fn placed(
        &self,
        before: DeviceMemory<T>,
        after: DeviceMemory<T>,
        data: Seq<T>,
    ) -> bool {
        &&& self.spec_len() == data.len()
        &&& before.fresh(self.addr())
        &&& after.regions() == before.regions().insert(self.addr(), data)
        &&& after.released() == before.released()
        &&& after.capacity_bytes() == before.capacity_bytes()
        &&& after.used_bytes() == before.used_bytes() + data.len() * size_of::<T>()
        &&& after.issued() == before.issued() + 1
    }

    /// The region of `self` went back from `before` to `after`, and nothing
    /// else changed but the bytes in use.
    pub open spec fn released_from(&self, before: DeviceMemory<T>, after: DeviceMemory<T>) -> bool {
        &&& after.regions() == before.regions().remove(self.addr())
        &&& after.released() == before.released().push(self.addr())
        &&& after.capacity_bytes() == before.capacity_bytes()
        &&& after.used_bytes() == before.used_bytes() - before.regions()[self.addr()].len()
            * size_of::<T>()
        &&& after.issued() == before.issued()
    }

    /// Allocates `data.len() * size_of::<T>()` bytes on `dev`, copies `data`
    /// into them, and returns the handle that owns them.
    pub fn from_host(dev: &mut DeviceMemory<T>, data: &[T]) -> (r: Result<Self, DeviceError>)
        requires
            old(dev).wf(),
        ensures
            final(dev).wf(),
            r is Ok <==> old(dev).can_hold(data@.len()),
            r matches Ok(h) ==> h.spec_len() == data@.len(),
            r matches Ok(h) ==> h.placed(*old(dev), *final(dev), data@),
            r matches Err(e) ==> e == DeviceError::AllocationFailed && *final(dev) == *old(dev),
    {
        match dev.upload(data) {
            Ok(ptr) => Ok(DeviceVec { ptr, len: data.len(), elem: core::marker::PhantomData }),
            Err(e) => Err(e),
        }
    }

    /// The element count fixed at construction.
    #[verifier::when_used_as_spec(spec_len)]
    pub fn len(&self) -> (r: usize)
        ensures
            r == self.spec_len(),
    {
        self.len
    }

    /// The device address of the region, for device-side operations. It
    /// must not be used to release the region.
    pub fn as_device_ptr(&self) -> (r: usize)
        ensures
            r == self.addr(),
    {
        self.ptr
    }

    /// The device address of the region, for device-side operations that
    /// write to it. It must not be used to release the region.
    pub fn as_mut_device_ptr(&mut self) -> (r: usize)
        ensures
            r == old(self).addr(),
            *final(self) == *old(self),
    {
        self.ptr
    }

    /// Copies the region back to the host. The device is not changed.
    pub fn to_host(&self, dev: &DeviceMemory<T>) -> (r: Result<Vec<T>, DeviceError>)
        ensures
            r is Ok <==> self.valid_in(*dev),
            r matches Ok(v) ==> v@ == self.contents_in(*dev),
            r matches Err(e) ==> e == dev.copy_fault(self.addr()),
    {
        dev.download(self.ptr, self.len)
    }

    /// A new handle that owns a fresh region of `dev` holding a copy of this
    /// one's contents. This handle and its region are not changed.
    pub fn try_clone(&self, dev: &mut DeviceMemory<T>) -> (r: Result<Self, DeviceError>)
        requires
            old(dev).wf(),
        ensures
            final(dev).wf(),
            r is Ok <==> self.valid_in(*old(dev)) && old(dev).can_hold(self.spec_len() as nat),
            r matches Ok(c) ==> c.placed(*old(dev), *final(dev), self.contents_in(*old(dev))),
            r matches Err(e) ==> {
                &&& e == if self.valid_in(*old(dev)) {
                    DeviceError::AllocationFailed
                } else {
                    old(dev).copy_fault(self.addr())
                }
                &&& *final(dev) == *old(dev)
            },
    {
        match dev.duplicate(self.ptr, self.len) {
            Ok(ptr) => Ok(DeviceVec { ptr, len: self.len, elem: core::marker::PhantomData }),
            Err(e) => Err(e),
        }
    }

    /// Gives the region back to `dev`, consuming the handle. A handle whose
    /// region is not live on `dev` releases nothing.
    pub fn release(self, dev: &mut DeviceMemory<T>) -> (r: Result<(), DeviceError>)
        requires
            old(dev).wf(),
        ensures
            final(dev).wf(),
            r is Ok <==> old(dev).regions().contains_key(self.addr()),
            r is Ok ==> self.released_from(*old(dev), *final(dev)),
            r is Ok ==> final(dev).times_released(self.addr()) == old(dev).times_released(
                self.addr(),
            ) + 1,
            r matches Err(e) ==> e == DeviceError::InvalidHandle && *final(dev) == *old(dev),
    {
        let r = dev.free(self.ptr);
        proof {
            if r is Ok {
                crate::device::lemma_occurrences_push(old(dev).released(), self.ptr, self.ptr);
            }
        }
        r
    }
}

/// Round trip: a buffer built from `data` is valid on the device it was
/// built on, has `data.len()` elements and holds `data`, so `to_host` on it
/// returns `data`.
pub proof fn lemma_round_trip<T: Copy>(
    h: DeviceVec<T>,
    before: DeviceMemory<T>,
    after: DeviceMemory<T>,
    data: Seq<T>,
)
    requires
        h.placed(before, after, data),
    ensures
        h.valid_in(after),
        h.spec_len() == data.len(),
        h.contents_in(after) == data,
{
}

/// Independent ownership: right after `c` is cloned from `b`, both are valid
/// and hold the same elements in regions of their own. Releasing either one
/// then leaves the other valid with the same contents, and so does any change
/// confined to the region of either one (a device-side store through its
/// address).
pub proof fn lemma_clone_independent<T: Copy>(
    b: DeviceVec<T>,
    c: DeviceVec<T>,
    d0: DeviceMemory<T>,
    d1: DeviceMemory<T>,
    d2: DeviceMemory<T>,
)
    requires
        b.valid_in(d0),
        c.placed(d0, d1, b.contents_in(d0)),
    ensures
        b.valid_in(d1),
        c.valid_in(d1),
        b.contents_in(d1) == c.contents_in(d1),
        b.addr() != c.addr(),
        b.released_from(d1, d2) ==> c.valid_in(d2) && c.contents_in(d2) == c.contents_in(d1),
        c.released_from(d1, d2) ==> b.valid_in(d2) && b.contents_in(d2) == b.contents_in(d1),
        d2.regions() == d1.regions().insert(b.addr(), d2.regions()[b.addr()]) ==> c.valid_in(d2)
            && c.contents_in(d2) == c.contents_in(d1),
        d2.regions() == d1.regions().insert(c.addr(), d2.regions()[c.addr()]) ==> b.valid_in(d2)
            && b.contents_in(d2) == b.contents_in(d1),
{
}

/// Single release: a buffer built on a well-formed device has not been
/// released; once `release` gives its region back it has been released exactly
/// once, and its region is gone, so a second release of that address finds
/// nothing to free.
pub proof fn lemma_single_release<T: Copy>(
    h: DeviceVec<T>,
    d0: DeviceMemory<T>,
    d1: DeviceMemory<T>,
    d2: DeviceMemory<T>,
    data: Seq<T>,
)
    requires
        d1.wf(),
        d2.wf(),
        h.placed(d0, d1, data),
        h.released_from(d1, d2),
    ensures
        d1.times_released(h.addr()) == 0,
        d2.times_released(h.addr()) == 1,
        !d2.regions().contains_key(h.addr()),
{
    d1.lemma_release_at_most_once(h.addr());
    d2.lemma_release_at_most_once(h.addr());
    crate::device::lemma_occurrences_push(d1.released(), h.addr(), h.addr());
}

} // verus!
