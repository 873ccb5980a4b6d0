use vstd::layout::size_of;
use vstd::prelude::*;

use crate::error::DeviceError;

verus! {

/// Bytes that one slot of the region table accounts for: a live region holds
/// `len * size_of::<T>()` bytes, a released slot none.
pub open spec fn slot_bytes<T>(slot: Option<Vec<T>>) -> nat {
    match slot {
        Some(v) => v@.len() * size_of::<T>(),
        None => 0,
    }
}

/// Bytes held by the live regions of a region table.
pub open spec fn table_bytes<T>(table: Seq<Option<Vec<T>>>) -> nat
    decreases table.len(),
{
    if table.len() == 0 {
        0
    } else {
        table_bytes(table.drop_last()) + slot_bytes(table.last())
    }
}

/// How many times `a` occurs in `s`.
pub open spec fn occurrences(s: Seq<usize>, a: usize) -> nat
    decreases s.len(),
{
    if s.len() == 0 {
        0
    } else {
        occurrences(s.drop_last(), a) + if s.last() == a {
            1nat
        } else {
            0nat
        }
    }
}

proof fn lemma_table_bytes_update<T>(table: Seq<Option<Vec<T>>>, i: int, slot: Option<Vec<T>>)
    requires
        0 <= i < table.len(),
    ensures
        table_bytes(table.update(i, slot)) + slot_bytes(table[i]) == table_bytes(table)
            + slot_bytes(slot),
    decreases table.len(),
{
    let u = table.update(i, slot);
    if i == table.len() - 1 {
        assert(u.drop_last() =~= table.drop_last());
    } else {
        assert(u.drop_last() =~= table.drop_last().update(i, slot));
        lemma_table_bytes_update(table.drop_last(), i, slot);
    }
}

proof fn lemma_table_bytes_push<T>(table: Seq<Option<Vec<T>>>, slot: Option<Vec<T>>)
    ensures
        table_bytes(table.push(slot)) == table_bytes(table) + slot_bytes(slot),
{
    assert(table.push(slot).drop_last() =~= table);
}

pub(crate) proof fn lemma_occurrences_push(s: Seq<usize>, x: usize, a: usize)
    ensures
        occurrences(s.push(x), a) == occurrences(s, a) + if x == a {
            1nat
        } else {
            0nat
        },
{
    assert(s.push(x).drop_last() =~= s);
}

/// In a sequence without repetitions an element occurs at most once, and an
/// element that is absent occurs zero times.
proof fn lemma_occurrences_unique(s: Seq<usize>, a: usize)
    requires
        s.no_duplicates(),
    ensures
        occurrences(s, a) <= 1,
        s.contains(a) <==> occurrences(s, a) == 1,
    decreases s.len(),
{
    if s.len() > 0 {
        let p = s.drop_last();
        assert(p.no_duplicates()) by {
            assert forall|i: int, j: int| 0 <= i < p.len() && 0 <= j < p.len() && i != j implies p[i]
                != p[j] by {
                assert(p[i] == s[i] && p[j] == s[j]);
            }
        }
        lemma_occurrences_unique(p, a);
        if s.last() == a {
            if p.contains(a) {
                let k = choose|k: int| 0 <= k < p.len() && p[k] == a;
                assert(s[k] == s[s.len() - 1]);
            }
            assert(s.contains(a)) by {
                assert(s[s.len() - 1] == a);
            }
        } else {
            if s.contains(a) {
                let k = choose|k: int| 0 <= k < s.len() && s[k] == a;
                assert(p[k] == a);
            }
            if p.contains(a) {
                let k = choose|k: int| 0 <= k < p.len() && p[k] == a;
                assert(s[k] == a);
            }
        }
    }
}

/// Device memory, held in host memory: regions of `T` allocated at opaque
/// addresses, filled by copies from the host or from another region, read
/// back by copies to the host, and released. Address 0 is never handed out,
/// an address is never reused, and the bytes held by live regions never
/// exceed the capacity fixed at creation.
pub struct DeviceMemory<T> {
    /// Slot `i` belongs to address `i + 1`; `None` once released.
    regions: Vec<Option<Vec<T>>>,
    capacity: usize,
    used: usize,
    /// Every address handed to `free` that succeeded, in order.
    frees: Vec<usize>,
}

impl<T: Copy> DeviceMemory<T> {
    /// The live regions, by address, with what each holds.
    pub closed spec fn regions(&self) -> Map<usize, Seq<T>> {
        Map::new(
            |a: usize| 1 <= a <= self.regions@.len() && self.regions@[a - 1] is Some,
            |a: usize| self.regions@[a - 1]->Some_0@,
        )
    }

    /// The addresses released so far, in order of release.
    pub closed spec fn released(&self) -> Seq<usize> {
        self.frees@
    }

    /// The most bytes that live regions may hold together.
    pub closed spec fn capacity_bytes(&self) -> nat {
        self.capacity as nat
    }

    /// The bytes that live regions hold together.
    pub closed spec fn used_bytes(&self) -> nat {
        self.used as nat
    }

    /// How many addresses have been handed out.
    pub closed spec fn issued(&self) -> nat {
        self.regions@.len()
    }

    /// How many times the region at `addr` has been released.
    pub open spec fn times_released(&self, addr: usize) -> nat {
        occurrences(self.released(), addr)
    }

    /// A live region at `addr` with exactly `len` elements.
    pub open spec fn holds(&self, addr: usize, len: nat) -> bool {
        self.regions().contains_key(addr) && self.regions()[addr].len() == len
    }

    /// A new region of `len` elements can be allocated: an address is left
    /// and its bytes fit in the remaining capacity.
    pub open spec fn can_hold(&self, len: nat) -> bool {
        &&& self.issued() < usize::MAX
        &&& self.used_bytes() + len * size_of::<T>() <= self.capacity_bytes()
    }

    /// An address that no region has had yet.
    pub open spec fn fresh(&self, addr: usize) -> bool {
        &&& addr != 0
        &&& !self.regions().contains_key(addr)
        &&& !self.released().contains(addr)
    }

    /// What a copy or store that targets `addr` fails with when it does not
    /// fit the region there: no region at all, or one of another size.
    pub open spec fn copy_fault(&self, addr: usize) -> DeviceError {
        if self.regions().contains_key(addr) {
            DeviceError::TransferFailed
        } else {
            DeviceError::InvalidHandle
        }
    }

    /// The accounting agrees with the regions, and each released address
    /// was issued, is released once, and names no live region.
    pub closed spec fn wf(&self) -> bool {
        &&& self.used as nat == table_bytes(self.regions@)
        &&& self.used <= self.capacity
        &&& self.frees@.no_duplicates()
        &&& forall|k: int|
            0 <= k < self.frees@.len() ==> 1 <= #[trigger] self.frees@[k] <= self.regions@.len()
                && self.regions@[self.frees@[k] - 1] is None
    }

    /// An empty device whose live regions may hold `capacity` bytes together.
    pub fn with_capacity(capacity: usize) -> (d: Self)
        ensures
            d.wf(),
            d.regions() == Map::<usize, Seq<T>>::empty(),
            d.released() == Seq::<usize>::empty(),
            d.capacity_bytes() == capacity,
            d.used_bytes() == 0,
            d.issued() == 0,
    {
        let d = DeviceMemory { regions: Vec::new(), capacity, used: 0, frees: Vec::new() };
        assert(d.regions() =~= Map::<usize, Seq<T>>::empty());
        d
    }

    /// An empty device with no bound on its capacity but the address space.
    pub fn new() -> (d: Self)
        ensures
            d.wf(),
            d.regions() == Map::<usize, Seq<T>>::empty(),
            d.released() == Seq::<usize>::empty(),
            d.capacity_bytes() == usize::MAX,
            d.used_bytes() == 0,
            d.issued() == 0,
    {
        Self::with_capacity(usize::MAX)
    }

    /// The byte count of a new region of `len` elements, where it can be
    /// allocated.
    fn reserve(&self, len: usize) -> (r: Option<usize>)
        requires
            self.wf(),
        ensures
            r is Some <==> self.can_hold(len as nat),
            r matches Some(bytes) ==> bytes == len * size_of::<T>(),
    {
        if self.regions.len() == usize::MAX {
            return None;
        }
        match len.checked_mul(core::mem::size_of::<T>()) {
            None => None,
            Some(bytes) => {
                if bytes <= self.capacity - self.used {
                    Some(bytes)
                } else {
                    None
                }
            },
        }
    }

    /// Takes `region` in as a new region at the next address.
    fn place(&mut self, region: Vec<T>, bytes: usize) -> (addr: usize)
        requires
            old(self).wf(),
            old(self).can_hold(region@.len()),
            bytes == region@.len() * size_of::<T>(),
        ensures
            final(self).wf(),
            old(self).fresh(addr),
            final(self).regions() == old(self).regions().insert(addr, region@),
            final(self).released() == old(self).released(),
            final(self).capacity_bytes() == old(self).capacity_bytes(),
            final(self).used_bytes() == old(self).used_bytes() + bytes,
            final(self).issued() == old(self).issued() + 1,
    {
        let ghost contents = region@;
        proof {
            lemma_table_bytes_push(self.regions@, Some(region));
        }
        self.regions.push(Some(region));
        self.used = self.used + bytes;
        let addr = self.regions.len();
        proof {
            assert(self.regions() =~= old(self).regions().insert(addr, contents));
            if old(self).frees@.contains(addr) {
                let k = choose|k: int| 0 <= k < old(self).frees@.len() && old(self).frees@[k] == addr;
                assert(old(self).frees@[k] <= old(self).regions@.len());
            }
            assert forall|k: int| 0 <= k < self.frees@.len() implies 1 <= #[trigger] self.frees@[k]
                <= self.regions@.len() && self.regions@[self.frees@[k] - 1] is None by {
                assert(self.regions@[self.frees@[k] - 1] == old(self).regions@[self.frees@[k] - 1]);
            }
        }
        addr
    }

    /// Allocates a region of `host.len()` elements and copies `host` into it
    /// (allocation, then a host-to-device copy).
    pub fn upload(&mut self, host: &[T]) -> (r: Result<usize, DeviceError>)
        requires
            old(self).wf(),
        ensures
            final(self).wf(),
            r is Ok <==> old(self).can_hold(host@.len()),
            match r {
                Ok(addr) => {
                    &&& old(self).fresh(addr)
                    &&& final(self).regions() == old(self).regions().insert(addr, host@)
                    &&& final(self).released() == old(self).released()
                    &&& final(self).capacity_bytes() == old(self).capacity_bytes()
                    &&& final(self).used_bytes() == old(self).used_bytes() + host@.len()
                        * size_of::<T>()
                    &&& final(self).issued() == old(self).issued() + 1
                },
                Err(e) => e == DeviceError::AllocationFailed && *final(self) == *old(self),
            },
    {
        match self.reserve(host.len()) {
            None => Err(DeviceError::AllocationFailed),
            Some(bytes) => {
                let region = copy_of(host);
                Ok(self.place(region, bytes))
            },
        }
    }

    /// Copies the region at `addr`, which must hold `len` elements, back to
    /// the host (a device-to-host copy). The device is not changed.
    pub fn download(&self, addr: usize, len: usize) -> (r: Result<Vec<T>, DeviceError>)
        ensures
            r is Ok <==> self.holds(addr, len as nat),
            r matches Ok(v) ==> v@ == self.regions()[addr],
            r matches Err(e) ==> e == self.copy_fault(addr),
    {
        if addr == 0 || addr > self.regions.len() {
            return Err(DeviceError::InvalidHandle);
        }
        match &self.regions[addr - 1] {
            None => Err(DeviceError::InvalidHandle),
            Some(region) => {
                if region.len() == len {
                    Ok(copy_of(region.as_slice()))
                } else {
                    Err(DeviceError::TransferFailed)
                }
            },
        }
    }

    /// Allocates a region and copies into it the region at `src`, which must
    /// hold `len` elements (allocation, then a device-to-device copy). The
    /// source region is not changed.
    pub fn duplicate(&mut self, src: usize, len: usize) -> (r: Result<usize, DeviceError>)
        requires
            old(self).wf(),
        ensures
            final(self).wf(),
            r is Ok <==> old(self).holds(src, len as nat) && old(self).can_hold(len as nat),
            match r {
                Ok(addr) => {
                    &&& old(self).fresh(addr)
                    &&& final(self).regions() == old(self).regions().insert(
                        addr,
                        old(self).regions()[src],
                    )
                    &&& final(self).released() == old(self).released()
                    &&& final(self).capacity_bytes() == old(self).capacity_bytes()
                    &&& final(self).used_bytes() == old(self).used_bytes() + len * size_of::<T>()
                    &&& final(self).issued() == old(self).issued() + 1
                },
                Err(e) => {
                    &&& e == if old(self).holds(src, len as nat) {
                        DeviceError::AllocationFailed
                    } else {
                        old(self).copy_fault(src)
                    }
                    &&& *final(self) == *old(self)
                },
            },
    {
        let region = match self.download(src, len) {
            Ok(region) => region,
            Err(e) => return Err(e),
        };
        match self.reserve(len) {
            None => Err(DeviceError::AllocationFailed),
            Some(bytes) => Ok(self.place(region, bytes)),
        }
    }

    /// Releases the region at `addr`. An address that names no live region,
    /// one released before among them, is refused and nothing is released.
    pub fn free(&mut self, addr: usize) -> (r: Result<(), DeviceError>)
        requires
            old(self).wf(),
        ensures
            final(self).wf(),
            r is Ok <==> old(self).regions().contains_key(addr),
            r is Ok ==> {
                &&& final(self).regions() == old(self).regions().remove(addr)
                &&& final(self).released() == old(self).released().push(addr)
                &&& final(self).capacity_bytes() == old(self).capacity_bytes()
                &&& final(self).used_bytes() == old(self).used_bytes() - old(self).regions()[addr].len()
                    * size_of::<T>()
                &&& final(self).issued() == old(self).issued()
            },
            r matches Err(e) ==> e == DeviceError::InvalidHandle && *final(self) == *old(self),
    {
        if addr == 0 || addr > self.regions.len() {
            return Err(DeviceError::InvalidHandle);
        }
        let i = addr - 1;
        let bytes = match &self.regions[i] {
            None => return Err(DeviceError::InvalidHandle),
            Some(region) => {
                proof {
                    lemma_table_bytes_update(self.regions@, i as int, None);
                }
                region.len() * core::mem::size_of::<T>()
            },
        };
        proof {
            if self.frees@.contains(addr) {
                let k = choose|k: int| 0 <= k < self.frees@.len() && self.frees@[k] == addr;
                assert(self.regions@[self.frees@[k] - 1] is None);
            }
        }
        self.regions[i] = None;
        self.used = self.used - bytes;
        self.frees.push(addr);
        proof {
            assert(self.regions() =~= old(self).regions().remove(addr));
            assert forall|k: int| 0 <= k < self.frees@.len() implies 1 <= #[trigger] self.frees@[k]
                <= self.regions@.len() && self.regions@[self.frees@[k] - 1] is None by {
                if k < old(self).frees@.len() {
                    assert(old(self).frees@[k] == self.frees@[k]);
                }
            }
            assert forall|x: int, y: int|
                0 <= x < self.frees@.len() && 0 <= y < self.frees@.len() && x != y implies self.frees@[x]
                != self.frees@[y] by {
                if x < old(self).frees@.len() && y < old(self).frees@.len() {
                    assert(old(self).frees@[x] == self.frees@[x]);
                    assert(old(self).frees@[y] == self.frees@[y]);
                }
            }
        }
        Ok(())
    }

    /// Writes `value` at `index` of the region at `addr`, as a device-side
    /// operation that was handed the address would. Nothing else changes.
    pub fn store(&mut self, addr: usize, index: usize, value: T) -> (r: Result<(), DeviceError>)
        requires
            old(self).wf(),
        ensures
            final(self).wf(),
            r is Ok <==> old(self).regions().contains_key(addr) && index < old(self).regions()[addr].len(),
            r is Ok ==> {
                &&& final(self).regions() == old(self).regions().insert(
                    addr,
                    old(self).regions()[addr].update(index as int, value),
                )
                &&& final(self).released() == old(self).released()
                &&& final(self).capacity_bytes() == old(self).capacity_bytes()
                &&& final(self).used_bytes() == old(self).used_bytes()
                &&& final(self).issued() == old(self).issued()
            },
            r matches Err(e) ==> e == old(self).copy_fault(addr) && *final(self) == *old(self),
    {
        if addr == 0 || addr > self.regions.len() {
            return Err(DeviceError::InvalidHandle);
        }
        let i = addr - 1;
        let len = match &self.regions[i] {
            None => return Err(DeviceError::InvalidHandle),
            Some(region) => region.len(),
        };
        if index >= len {
            return Err(DeviceError::TransferFailed);
        }
        let mut slot: Option<Vec<T>> = None;
        core::mem::swap(&mut self.regions[i], &mut slot);
        let mut region = match slot {
            Some(region) => region,
            None => return Err(DeviceError::InvalidHandle),
        };
        region[index] = value;
        let ghost contents = region@;
        proof {
            lemma_table_bytes_update(old(self).regions@, i as int, Some(region));
        }
        self.regions[i] = Some(region);
        proof {
            assert(self.regions@ == old(self).regions@.update(i as int, Some(region)));
            assert(self.regions() =~= old(self).regions().insert(addr, contents));
            assert forall|k: int| 0 <= k < self.frees@.len() implies 1 <= #[trigger] self.frees@[k]
                <= self.regions@.len() && self.regions@[self.frees@[k] - 1] is None by {
                assert(old(self).regions@[old(self).frees@[k] - 1] is None);
            }
        }
        Ok(())
    }

    /// Whether a live region has the address `addr`.
    pub fn is_live(&self, addr: usize) -> (r: bool)
        ensures
            r == self.regions().contains_key(addr),
    {
        addr != 0 && addr <= self.regions.len() && self.regions[addr - 1].is_some()
    }

    /// How many times the region at `addr` has been released.
    pub fn release_count(&self, addr: usize) -> (n: usize)
        ensures
            n == self.times_released(addr),
    {
        let mut n: usize = 0;
        let mut k: usize = 0;
        while k < self.frees.len()
            invariant
                k <= self.frees@.len(),
                n <= k,
                n == occurrences(self.frees@.subrange(0, k as int), addr),
            decreases self.frees@.len() - k,
        {
            proof {
                assert(self.frees@.subrange(0, k + 1) =~= self.frees@.subrange(0, k as int).push(
                    self.frees@[k as int],
                ));
                lemma_occurrences_push(self.frees@.subrange(0, k as int), self.frees@[k as int], addr);
            }
            if self.frees[k] == addr {
                n = n + 1;
            }
            k = k + 1;
        }
        assert(self.frees@.subrange(0, k as int) =~= self.frees@);
        n
    }

    /// No address is released twice, a released address never names a
    /// live region, and a live region's address has not been released.
    pub proof fn lemma_release_at_most_once(&self, addr: usize)
        requires
            self.wf(),
        ensures
            self.times_released(addr) <= 1,
            self.released().contains(addr) ==> !self.regions().contains_key(addr),
            self.regions().contains_key(addr) ==> self.times_released(addr) == 0,
    {
        lemma_occurrences_unique(self.frees@, addr);
        if self.frees@.contains(addr) {
            let k = choose|k: int| 0 <= k < self.frees@.len() && self.frees@[k] == addr;
            assert(self.regions@[self.frees@[k] - 1] is None);
        }
    }

    /// The bytes that live regions hold together.
    pub fn used(&self) -> (r: usize)
        ensures
            r == self.used_bytes(),
    {
        self.used
    }

    /// The most bytes that live regions may hold together.
    pub fn capacity(&self) -> (r: usize)
        ensures
            r == self.capacity_bytes(),
    {
        self.capacity
    }
}

/// A host copy of `src`, element by element.
fn copy_of<T: Copy>(src: &[T]) -> (r: Vec<T>)
    ensures
        r@ == src@,
{
    let mut out: Vec<T> = Vec::with_capacity(src.len());
    let mut i: usize = 0;
    while i < src.len()
        invariant
            i <= src@.len(),
            out@ == src@.subrange(0, i as int),
        decreases src@.len() - i,
    {
        out.push(src[i]);
        i = i + 1;
        assert(out@ =~= src@.subrange(0, i as int));
    }
    assert(out@ =~= src@);
    out
}

} // verus!
