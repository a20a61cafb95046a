//! The x86 kernel's virtual memory for emulated programs: ranges of virtual
//! addresses mapped onto one physical backing store.
use vstd::prelude::*;

verus! {

/// `len` virtual addresses from `virtual_start` on, mapped to as many
/// physical ones from `phys_start` on.
#[derive(Debug, Clone, Copy, PartialEq, Eq, Structural)]
pub struct VirtRange {
    pub virtual_start: usize,
    pub phys_start: usize,
    pub len: usize,
}

impl VirtRange {
    pub open spec fn contains(self, virt_addr: usize) -> bool {
        self.virtual_start <= virt_addr < self.virtual_start + self.len
    }

    /// The virtual ranges share an address.
    pub open spec fn overlaps(self, other: VirtRange) -> bool {
        !(self.virtual_start >= other.virtual_start + other.len || self.virtual_start + self.len
            <= other.virtual_start)
    }

    /// The physical address of a virtual one in the range.
    pub fn try_map(&self, virt_addr: usize) -> (r: Option<usize>)
        requires
            self.virtual_start + self.len <= usize::MAX,
            self.phys_start + self.len <= usize::MAX,
        ensures
            r == if self.contains(virt_addr) {
                Some((virt_addr - self.virtual_start + self.phys_start) as usize)
            } else {
                None
            },
    {
        if self.virtual_start <= virt_addr && virt_addr < self.virtual_start + self.len {
            Some(virt_addr - self.virtual_start + self.phys_start)
        } else {
            None
        }
    }

    pub fn virtually_overlaps_with(&self, other: &VirtRange) -> (r: bool)
        requires
            self.virtual_start + self.len <= usize::MAX,
            other.virtual_start + other.len <= usize::MAX,
        ensures
            r == self.overlaps(*other),
    {
        if self.virtual_start >= other.virtual_start + other.len {
            return false;
        }
        if self.virtual_start + self.len <= other.virtual_start {
            return false;
        }
        true
    }
}

/// Ranges whose ends can be computed.
pub open spec fn ranges_wf(rs: Seq<VirtRange>) -> bool {
    forall|i: int|
        0 <= i < rs.len() ==> #[trigger] rs[i].virtual_start + rs[i].len <= usize::MAX
            && rs[i].phys_start + rs[i].len <= usize::MAX
}

/// `store` grown with zeroes to hold `end` bytes, if it is shorter.
pub open spec fn grown(store: Seq<u8>, end: int) -> Seq<u8> {
    if end > store.len() {
        store + Seq::new((end - store.len()) as nat, |i: int| 0u8)
    } else {
        store
    }
}

#[derive(Debug)]
pub struct LittleEndianVirtualMemory {
    backing_storage: Vec<u8>,
    map: Vec<VirtRange>,
}

impl LittleEndianVirtualMemory {
    pub closed spec fn storage(&self) -> Seq<u8> {
        self.backing_storage@
    }

    pub closed spec fn ranges(&self) -> Seq<VirtRange> {
        self.map@
    }

    pub fn new() -> (r: Self)
        ensures
            r.storage() == Seq::<u8>::empty(),
            r.ranges() == Seq::<VirtRange>::empty(),
    {
        LittleEndianVirtualMemory { backing_storage: Vec::new(), map: Vec::new() }
    }

    /// The physical address of the first range that holds `virt_addr`.
    pub fn try_map(&self, virt_addr: usize) -> (r: Option<usize>)
        requires
            ranges_wf(self.ranges()),
        ensures
            match r {
                Some(p) => exists|i: int|
                    0 <= i < self.ranges().len() && (#[trigger] self.ranges()[i]).contains(virt_addr) && p
                        == virt_addr - self.ranges()[i].virtual_start + self.ranges()[i].phys_start
                        && forall|k: int| 0 <= k < i ==> !(#[trigger] self.ranges()[k]).contains(virt_addr),
                None => forall|k: int|
                    0 <= k < self.ranges().len() ==> !(#[trigger] self.ranges()[k]).contains(virt_addr),
            },
    {
        let mut i: usize = 0;
        while i < self.map.len()
            invariant
                ranges_wf(self.map@),
                i <= self.map@.len(),
                forall|k: int| 0 <= k < i ==> !(#[trigger] self.map@[k]).contains(virt_addr),
            decreases self.map@.len() - i,
        {
            if let Some(p) = self.map[i].try_map(virt_addr) {
                assert(self.ranges()[i as int].contains(virt_addr));
                return Some(p);
            }
            i = i + 1;
        }
        None
    }

    /// Maps `data.len()` virtual addresses from `virt_addr` on to as many
    /// physical ones from `phys_addr` on, which get the bytes of `data` (the
    /// store grows as needed); `None`, and nothing changed, where the virtual
    /// range overlaps one already mapped.
    pub fn add_region(&mut self, phys_addr: usize, virt_addr: usize, data: &[u8]) -> (r: Option<()>)
        requires
            ranges_wf(old(self).ranges()),
            virt_addr + data@.len() <= usize::MAX,
            phys_addr + data@.len() <= usize::MAX,
        ensures
            ranges_wf(final(self).ranges()),
            ({
                let nr = VirtRange { virtual_start: virt_addr, phys_start: phys_addr, len: data@.len() as usize };
                if exists|i: int| 0 <= i < old(self).ranges().len() && #[trigger] old(self).ranges()[i].overlaps(nr) {
                    r is None && final(self).ranges() == old(self).ranges() && final(self).storage() == old(self).storage()
                } else {
                    &&& r is Some
                    &&& final(self).ranges() == old(self).ranges().push(nr)
                    &&& final(self).storage() == ({
                        let g = grown(old(self).storage(), phys_addr + data@.len());
                        g.subrange(0, phys_addr as int) + data@ + g.subrange(phys_addr + data@.len(), g.len() as int)
                    })
                }
            }),
    {
        let new_range = VirtRange { virtual_start: virt_addr, phys_start: phys_addr, len: data.len() };
        let mut i: usize = 0;
        while i < self.map.len()
            invariant
                ranges_wf(self.map@),
                self.map@ == old(self).map@,
                self.backing_storage@ == old(self).backing_storage@,
                new_range == (VirtRange { virtual_start: virt_addr, phys_start: phys_addr, len: data@.len() as usize }),
                virt_addr + data@.len() <= usize::MAX,
                i <= self.map@.len(),
                forall|k: int| 0 <= k < i ==> !(#[trigger] self.map@[k]).overlaps(new_range),
            decreases self.map@.len() - i,
        {
            if self.map[i].virtually_overlaps_with(&new_range) {
                assert(old(self).ranges()[i as int].overlaps(new_range));
                return None;
            }
            i = i + 1;
        }
        let end = phys_addr + data.len();
        if end > self.backing_storage.len() {
            self.backing_storage.resize(end, 0);
        }
        let ghost g = self.backing_storage@;
        assert(g == grown(old(self).storage(), end as int));
        let mut indx: usize = phys_addr;
        let mut k: usize = 0;
        while k < data.len()
            invariant
                k <= data@.len(),
                indx == phys_addr + k,
                end == phys_addr + data@.len(),
                end <= g.len(),
                self.map@ == old(self).map@,
                self.backing_storage@.len() == g.len(),
                forall|j: int| 0 <= j < phys_addr ==> #[trigger] self.backing_storage@[j] == g[j],
                forall|j: int| end <= j < g.len() ==> #[trigger] self.backing_storage@[j] == g[j],
                forall|j: int| phys_addr + k <= j < end ==> #[trigger] self.backing_storage@[j] == g[j],
                forall|j: int| 0 <= j < k ==> #[trigger] self.backing_storage@[phys_addr + j] == data@[j],
            decreases data@.len() - k,
        {
            self.backing_storage.set(indx, data[k]);
            indx = indx + 1;
            k = k + 1;
        }
        proof {
            let want = g.subrange(0, phys_addr as int) + data@ + g.subrange(end as int, g.len() as int);
            assert forall|j: int| 0 <= j < want.len() implies #[trigger] self.backing_storage@[j] == want[j] by {
                if j < phys_addr {
                } else if j < end {
                    assert(self.backing_storage@[phys_addr + (j - phys_addr)] == data@[j - phys_addr]);
                } else {
                }
            }
            assert(self.backing_storage@ =~= want);
        }
        self.map.push(new_range);
        proof {
            assert forall|i: int| 0 <= i < self.map@.len() implies #[trigger] self.map@[i].virtual_start + self.map@[i].len <= usize::MAX
                && self.map@[i].phys_start + self.map@[i].len <= usize::MAX by {
                if i < old(self).map@.len() {
                    assert(self.map@[i] == old(self).map@[i]);
                }
            }
        }
        Some(())
    }
}

/// An address space that pointers may point into.
pub trait AddressSpace {}

/// The kernel's own address space.
#[derive(Debug, Clone, Copy)]
pub struct KernelSpace {}

impl AddressSpace for KernelSpace {}

} // verus!
