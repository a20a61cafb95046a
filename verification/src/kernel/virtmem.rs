//! The virtual memory of an emulated process: regions of bytes mapped at
//! virtual addresses, which must not overlap.
use crate::kernel::emulator::{bytes_at, le_combine, le_split, store_le, EmulatorMemory};
use vstd::prelude::*;

verus! {

/// A range of virtual addresses and the bytes that back it.
#[derive(Debug, Clone)]
pub struct VirtRegion {
    /// The first virtual address of the region.
    pub virtual_start: u64,
    pub backing_storage: Vec<u8>,
}

impl VirtRegion {
    /// The region's addresses, start and inclusive end, can be computed
    /// without overflow.
    pub open spec fn wf(&self) -> bool {
        &&& self.virtual_start >= 1
        &&& self.virtual_start - 1 + self.backing_storage@.len() <= u64::MAX
    }

    /// The last address of the region (one before the start if it is empty).
    pub open spec fn end_inclusive(&self) -> int {
        self.virtual_start - 1 + self.backing_storage@.len()
    }

    pub open spec fn contains(&self, addr: u64) -> bool {
        self.virtual_start <= addr <= self.end_inclusive()
    }

    /// The offset into the region of a virtual address, if it lies in it.
    pub fn try_map(&self, virt_addr: u64) -> (r: Option<usize>)
        requires
            self.wf(),
        ensures
            r == if self.contains(virt_addr) {
                Some((virt_addr - self.virtual_start) as usize)
            } else {
                None
            },
            r matches Some(off) ==> off == virt_addr - self.virtual_start,
    {
        let _l = self.len();
        if self.virtual_start <= virt_addr && virt_addr <= self.get_virtual_end_inclusive() {
            Some((virt_addr - self.virtual_start) as usize)
        } else {
            None
        }
    }

    /// The virtual address of an offset into the region; the offset just past
    /// the end is accepted too.
    pub fn try_reverse_map(&self, offset_in_region: usize) -> (r: Option<u64>)
        requires
            offset_in_region <= self.backing_storage@.len() ==> offset_in_region + self.virtual_start <= u64::MAX,
        ensures
            r == if offset_in_region > self.backing_storage@.len() {
                None
            } else {
                Some((offset_in_region + self.virtual_start) as u64)
            },
    {
        if offset_in_region > self.len() {
            None
        } else {
            Some(offset_in_region as u64 + self.virtual_start)
        }
    }

    /// Whether the two regions share a virtual address (as ranges from the
    /// start to the inclusive end).
    pub fn overlaps_virtually_with(&self, other: &Self) -> (r: bool)
        requires
            self.wf(),
            other.wf(),
        ensures
            r == !(self.virtual_start > other.end_inclusive() || self.end_inclusive()
                < other.virtual_start),
    {
        if self.virtual_start > other.get_virtual_end_inclusive() {
            return false;
        }
        if self.get_virtual_end_inclusive() < other.virtual_start {
            return false;
        }
        true
    }

    pub fn get_virtual_end_inclusive(&self) -> (r: u64)
        requires
            self.wf(),
        ensures
            r == self.end_inclusive(),
    {
        self.virtual_start - 1 + (self.len() as u64)
    }

    pub fn len(&self) -> (r: usize)
        ensures
            r == self.backing_storage@.len(),
    {
        self.backing_storage.len()
    }
}

/// Where a virtual address was found: the region's index and the offset
/// into it.
#[derive(Debug, Clone, Copy, PartialEq, Eq, Structural)]
pub struct MappingInfo {
    pub offset_in_region: usize,
    pub region_index: usize,
}

/// The index of the region that holds `addr`, if one does.
pub open spec fn region_index_of(rs: Seq<VirtRegion>, addr: u64) -> Option<int> {
    if exists|i: int| 0 <= i < rs.len() && #[trigger] rs[i].contains(addr) {
        Some(choose|i: int| 0 <= i < rs.len() && #[trigger] rs[i].contains(addr))
    } else {
        None
    }
}

/// Each region is well formed, and no two share an address.
pub open spec fn regions_wf(rs: Seq<VirtRegion>) -> bool {
    &&& forall|i: int| 0 <= i < rs.len() ==> #[trigger] rs[i].wf()
    &&& forall|i: int, j: int|
        0 <= i < rs.len() && 0 <= j < rs.len() && i != j ==> !(#[trigger] rs[i].overlaps(
            rs[j],
        ))
}

impl VirtRegion {
    pub open spec fn overlaps(&self, other: VirtRegion) -> bool {
        self.overlaps_range(other.virtual_start, other.backing_storage@.len())
    }

    /// Whether the region shares an address with the `len` addresses from
    /// `start` on (taken, like a region, from the start to the inclusive end).
    pub open spec fn overlaps_range(&self, start: u64, len: nat) -> bool {
        !(self.virtual_start > start - 1 + len || self.end_inclusive() < start)
    }
}

/// The bytes mapped by a list of regions, by virtual address.
pub open spec fn regions_view(rs: Seq<VirtRegion>) -> Map<u64, u8> {
    Map::new(
        |a: u64| region_index_of(rs, a) is Some,
        |a: u64|
            {
                let r = rs[region_index_of(rs, a)->0];
                r.backing_storage@[a - r.virtual_start]
            },
    )
}

/// In well-formed regions, the region that holds an address is the only one.
pub proof fn lemma_region_index_unique(rs: Seq<VirtRegion>, addr: u64, i: int)
    requires
        regions_wf(rs),
        0 <= i < rs.len(),
        rs[i].contains(addr),
    ensures
        region_index_of(rs, addr) == Some(i),
{
    let j = choose|j: int| 0 <= j < rs.len() && #[trigger] rs[j].contains(addr);
    if j != i {
        assert(rs[i].overlaps(rs[j]));
    }
}

/// The virtual memory a process sees (the operations the emulator and the
/// system calls use).
pub trait VirtualMemory: Sized {
    /// The regions, in the order they were added.
    spec fn regions(&self) -> Seq<VirtRegion>;

    /// The first region that holds `virt_addr`, and where in it the address is.
    fn try_map(&self, virt_addr: u64) -> (r: Option<(&VirtRegion, MappingInfo)>)
        requires
            regions_wf(self.regions()),
        ensures
            match r {
                Some((region, info)) => {
                    &&& region_index_of(self.regions(), virt_addr) == Some(info.region_index as int)
                    &&& *region == self.regions()[info.region_index as int]
                    &&& info.offset_in_region == virt_addr - region.virtual_start
                },
                None => region_index_of(self.regions(), virt_addr) is None,
            },
    ;

    /// Adds a region of bytes at `virt_addr`, unless it would share an address
    /// with a region already there.
    fn add_region(&mut self, virt_addr: u64, data: Vec<u8>) -> (r: Option<()>)
        requires
            regions_wf(old(self).regions()),
            virt_addr >= 1,
            virt_addr - 1 + data@.len() <= u64::MAX,
        ensures
            regions_wf(final(self).regions()),
            if exists|i: int|
                0 <= i < old(self).regions().len() && #[trigger] old(self).regions()[i].overlaps_range(
                    virt_addr,
                    data@.len(),
                ) {
                r is None && final(self).regions() == old(self).regions()
            } else {
                r is Some && final(self).regions() == old(self).regions().push(
                    VirtRegion { virtual_start: virt_addr, backing_storage: data },
                )
            },
    ;

    /// Removes the region at `region_index`.
    fn remove_region(&mut self, region_index: usize)
        requires
            regions_wf(old(self).regions()),
            region_index < old(self).regions().len(),
        ensures
            regions_wf(final(self).regions()),
            final(self).regions() == old(self).regions().remove(region_index as int),
    ;
}

/// Virtual memory made of regions that do not overlap, whose values of
/// several bytes are little-endian.
#[derive(Debug, Clone)]
pub struct LittleEndianVirtualMemory {
    map: Vec<VirtRegion>,
}

impl LittleEndianVirtualMemory {
    pub fn new() -> (r: Self)
        ensures
            r.regions() == Seq::<VirtRegion>::empty(),
    {
        LittleEndianVirtualMemory { map: Vec::new() }
    }

    pub fn get_number_of_regions(&self) -> (r: usize)
        ensures
            r == self.regions().len(),
    {
        self.map.len()
    }

    /// The index of the first region that holds `virt_addr`.
    fn find_region(&self, virt_addr: u64) -> (r: Option<usize>)
        requires
            regions_wf(self.regions()),
        ensures
            match r {
                Some(i) => i < self.regions().len() && region_index_of(self.regions(), virt_addr)
                    == Some(i as int),
                None => region_index_of(self.regions(), virt_addr) is None,
            },
    {
        let mut i: usize = 0;
        while i < self.map.len()
            invariant
                regions_wf(self.regions()),
                self.regions() == self.map@,
                i <= self.map.len(),
                forall|k: int| 0 <= k < i ==> !(#[trigger] self.map@[k]).contains(virt_addr),
            decreases self.map.len() - i,
        {
            if let Some(_off) = self.map[i].try_map(virt_addr) {
                proof {
                    lemma_region_index_unique(self.map@, virt_addr, i as int);
                }
                return Some(i);
            }
            i = i + 1;
        }
        None
    }
}

impl VirtualMemory for LittleEndianVirtualMemory {
    closed spec fn regions(&self) -> Seq<VirtRegion> {
        self.map@
    }

    fn try_map(&self, virt_addr: u64) -> (r: Option<(&VirtRegion, MappingInfo)>) {
        match self.find_region(virt_addr) {
            Some(i) => {
                let region = &self.map[i];
                let offset = region.try_map(virt_addr);
                let ghost ri = self.map@[i as int];
                assert(ri.wf());
                assert(ri.contains(virt_addr)) by {
                    let j = choose|j: int| 0 <= j < self.map@.len() && #[trigger] self.map@[j].contains(virt_addr);
                    assert(j == i);
                }
                Some((region, MappingInfo { offset_in_region: offset.unwrap(), region_index: i }))
            },
            None => None,
        }
    }

    fn add_region(&mut self, virt_addr: u64, data: Vec<u8>) -> (r: Option<()>) {
        let ghost nr = VirtRegion { virtual_start: virt_addr, backing_storage: data };
        let new_range = VirtRegion { virtual_start: virt_addr, backing_storage: data };
        let mut i: usize = 0;
        while i < self.map.len()
            invariant
                regions_wf(self.map@),
                self.map@ == old(self).map@,
                new_range == nr,
                nr == (VirtRegion { virtual_start: virt_addr, backing_storage: data }),
                nr.wf(),
                i <= self.map.len(),
                forall|k: int| 0 <= k < i ==> !(#[trigger] self.map@[k]).overlaps(nr),
            decreases self.map.len() - i,
        {
            if self.map[i].overlaps_virtually_with(&new_range) {
                assert(old(self).regions()[i as int].overlaps_range(virt_addr, data@.len()));
                return None;
            }
            i = i + 1;
        }
        self.map.push(new_range);
        proof {
            let rs = self.map@;
            assert forall|a: int, b: int|
                0 <= a < rs.len() && 0 <= b < rs.len() && a != b implies !(#[trigger] rs[a].overlaps(
                rs[b],
            )) by {
                if a == rs.len() - 1 {
                    assert(!rs[b].overlaps(nr));
                } else if b == rs.len() - 1 {
                    assert(!rs[a].overlaps(nr));
                } else {
                    assert(rs[a] == old(self).map@[a] && rs[b] == old(self).map@[b]);
                }
            }
        }
        Some(())
    }

    fn remove_region(&mut self, region_index: usize) {
        let _removed = self.map.remove(region_index);
        proof {
            let rs = self.map@;
            let o = old(self).map@;
            assert forall|a: int, b: int|
                0 <= a < rs.len() && 0 <= b < rs.len() && a != b implies !(#[trigger] rs[a].overlaps(
                rs[b],
            )) by {
                let oa = if a < region_index { a } else { a + 1 };
                let ob = if b < region_index { b } else { b + 1 };
                assert(rs[a] == o[oa] && rs[b] == o[ob]);
                assert(!o[oa].overlaps(o[ob]));
            }
            assert forall|a: int| 0 <= a < rs.len() implies #[trigger] rs[a].wf() by {
                let oa = if a < region_index { a } else { a + 1 };
                assert(rs[a] == o[oa]);
            }
        }
    }
}

/// The region and offset where an access at `addr` lands, if the first
/// region that holds `addr` also holds the `size` bytes from it.
pub open spec fn access_in(rs: Seq<VirtRegion>, addr: u64, size: nat) -> bool {
    &&& regions_wf(rs)
    &&& region_index_of(rs, addr) is Some
    &&& addr + size <= rs[region_index_of(rs, addr)->0].virtual_start
        + rs[region_index_of(rs, addr)->0].backing_storage@.len()
}

/// Every byte of an access that lands in one region is that region's.
proof fn lemma_access_bytes(rs: Seq<VirtRegion>, addr: u64, size: nat, i: int)
    requires
        access_in(rs, addr, size),
        0 <= i < size,
    ensures
        ({
            let idx = region_index_of(rs, addr)->0;
            let r = rs[idx];
            &&& addr + i <= u64::MAX
            &&& region_index_of(rs, (addr + i) as u64) == Some(idx)
            &&& regions_view(rs).dom().contains((addr + i) as u64)
            &&& regions_view(rs)[(addr + i) as u64] == r.backing_storage@[addr - r.virtual_start + i]
        }),
{
    let idx = region_index_of(rs, addr)->0;
    let j = choose|j: int| 0 <= j < rs.len() && #[trigger] rs[j].contains(addr);
    assert(rs[idx].wf());
    assert(rs[idx].contains((addr + i) as u64));
    lemma_region_index_unique(rs, (addr + i) as u64, idx);
}

/// Writing one byte of one region changes the mapped bytes at that address only.
proof fn lemma_write_byte_view(rs: Seq<VirtRegion>, new_rs: Seq<VirtRegion>, idx: int, off: int, b: u8)
    requires
        regions_wf(rs),
        0 <= idx < rs.len(),
        0 <= off < rs[idx].backing_storage@.len(),
        new_rs.len() == rs.len(),
        forall|k: int| 0 <= k < rs.len() && k != idx ==> new_rs[k] == rs[k],
        new_rs[idx].virtual_start == rs[idx].virtual_start,
        new_rs[idx].backing_storage@ == rs[idx].backing_storage@.update(off, b),
    ensures
        regions_wf(new_rs),
        forall|a: u64| #[trigger] region_index_of(new_rs, a) == region_index_of(rs, a),
        regions_view(new_rs) == regions_view(rs).insert((rs[idx].virtual_start + off) as u64, b),
{
    assert forall|k: int| 0 <= k < new_rs.len() implies #[trigger] new_rs[k].wf() by {
        assert(rs[k].wf());
    }
    assert forall|i: int, j: int|
        0 <= i < new_rs.len() && 0 <= j < new_rs.len() && i != j implies !(#[trigger] new_rs[i].overlaps(
        new_rs[j],
    )) by {
        assert(!rs[i].overlaps(rs[j]));
    }
    assert forall|a: u64| #[trigger] region_index_of(new_rs, a) == region_index_of(rs, a) by {
        assert forall|k: int| 0 <= k < rs.len() implies (#[trigger] new_rs[k].contains(a)
            == rs[k].contains(a)) by {}
        if region_index_of(rs, a) is Some {
            let k = region_index_of(rs, a)->0;
            let j = choose|j: int| 0 <= j < rs.len() && #[trigger] rs[j].contains(a);
            lemma_region_index_unique(new_rs, a, k);
        } else {
            if region_index_of(new_rs, a) is Some {
                let j = choose|j: int| 0 <= j < new_rs.len() && #[trigger] new_rs[j].contains(a);
                assert(rs[j].contains(a));
            }
        }
    }
    let addr = (rs[idx].virtual_start + off) as u64;
    assert(rs[idx].wf());
    assert(rs[idx].contains(addr));
    lemma_region_index_unique(rs, addr, idx);
    assert(regions_view(new_rs) =~= regions_view(rs).insert(addr, b)) by {
        assert forall|a: u64| #[trigger] regions_view(new_rs).dom().contains(a) == regions_view(rs).insert(addr, b).dom().contains(a) by {
            assert(region_index_of(new_rs, a) == region_index_of(rs, a));
        }
        assert forall|a: u64| regions_view(new_rs).dom().contains(a) implies #[trigger] regions_view(new_rs)[a] == regions_view(rs).insert(addr, b)[a] by {
            assert(region_index_of(new_rs, a) == region_index_of(rs, a));
            let k = region_index_of(rs, a)->0;
            let j = choose|j: int| 0 <= j < rs.len() && #[trigger] rs[j].contains(a);
            if k == idx && a != addr {
                assert(a - rs[idx].virtual_start != off);
            }
        }
    }
}

impl LittleEndianVirtualMemory {
    /// Writes one byte at an offset of a region.
    fn write_byte(&mut self, idx: usize, off: usize, b: u8)
        requires
            regions_wf(old(self).map@),
            idx < old(self).map@.len(),
            off < old(self).map@[idx as int].backing_storage@.len(),
        ensures
            regions_wf(final(self).map@),
            forall|a: u64| #[trigger] region_index_of(final(self).map@, a) == region_index_of(old(self).map@, a),
            regions_view(final(self).map@) == regions_view(old(self).map@).insert(
                (old(self).map@[idx as int].virtual_start + off) as u64,
                b,
            ),
            final(self).map@.len() == old(self).map@.len(),
            forall|k: int| 0 <= k < final(self).map@.len() ==> (#[trigger] final(self).map@[k]).virtual_start == old(self).map@[k].virtual_start
                && final(self).map@[k].backing_storage@.len() == old(self).map@[k].backing_storage@.len(),
    {
        self.map[idx].backing_storage[off] = b;
        proof {
            lemma_write_byte_view(old(self).map@, self.map@, idx as int, off as int, b);
        }
    }

    /// The first byte of an access that lands in one region: the region's
    /// index and the offset into it.
    fn locate(&self, addr: u64, size: Ghost<nat>) -> (r: (usize, usize))
        requires
            access_in(self.map@, addr, size@),
        ensures
            region_index_of(self.map@, addr) == Some(r.0 as int),
            r.0 < self.map@.len(),
            r.1 == addr - self.map@[r.0 as int].virtual_start,
            r.1 + size@ <= self.map@[r.0 as int].backing_storage@.len(),
            self.map@[r.0 as int].backing_storage@.len() <= usize::MAX,
    {
        let idx = self.find_region(addr).unwrap();
        let _len = self.map[idx].len();
        let off = self.map[idx].try_map(addr);
        proof {
            let j = choose|j: int| 0 <= j < self.map@.len() && #[trigger] self.map@[j].contains(addr);
            assert(self.map@[idx as int].wf());
        }
        (idx, off.unwrap())
    }

    /// Stores the low `size` bytes of `val` from `addr` on, least significant
    /// byte first.
    fn store(&mut self, addr: u64, val: u64, size: usize)
        requires
            access_in(old(self).map@, addr, size as nat),
            size <= 8,
        ensures
            regions_view(final(self).map@) == store_le(regions_view(old(self).map@), addr, size as nat, val),
            forall|a: u64, s: nat| access_in(final(self).map@, a, s) == access_in(old(self).map@, a, s),
    {
        let (idx, off) = self.locate(addr, Ghost(size as nat));
        let ghost old_view = regions_view(self.map@);
        let ghost old_map = self.map@;
        let mut k: usize = 0;
        while k < size
            invariant
                k <= size <= 8,
                access_in(old_map, addr, size as nat),
                region_index_of(old_map, addr) == Some(idx as int),
                idx < old_map.len(),
                off == addr - old_map[idx as int].virtual_start,
                off + size <= old_map[idx as int].backing_storage@.len(),
                old_map[idx as int].backing_storage@.len() <= usize::MAX,
                old_view == regions_view(old_map),
                regions_wf(self.map@),
                self.map@.len() == old_map.len(),
                forall|j: int| 0 <= j < self.map@.len() ==> (#[trigger] self.map@[j]).virtual_start == old_map[j].virtual_start
                    && self.map@[j].backing_storage@.len() == old_map[j].backing_storage@.len(),
                forall|a: u64| #[trigger] region_index_of(self.map@, a) == region_index_of(old_map, a),
                regions_view(self.map@) == store_le(old_view, addr, k as nat, val).union_prefer_right(
                    Map::empty(),
                ),
            decreases size - k,
        {
            let ghost before = regions_view(self.map@);
            let b = (val >> (8 * k as u64)) as u8;
            self.write_byte(idx, off + k, b);
            proof {
                lemma_access_bytes(old_map, addr, size as nat, k as int);
                let target = (addr + k) as u64;
                assert(target == (old_map[idx as int].virtual_start + off + k) as u64);
                assert(regions_view(self.map@) =~= store_le(old_view, addr, (k + 1) as nat, val).union_prefer_right(Map::empty())) by {
                    assert forall|a: u64| #[trigger] regions_view(self.map@).dom().contains(a) == store_le(old_view, addr, (k + 1) as nat, val).dom().contains(a) by {}
                    assert forall|a: u64| regions_view(self.map@).dom().contains(a) implies #[trigger] regions_view(self.map@)[a] == store_le(old_view, addr, (k + 1) as nat, val)[a] by {
                        if a == target {
                            assert(le_split(val, (k + 1) as nat)[k as int] == b);
                        } else if addr <= a < addr + k {
                            assert(le_split(val, (k + 1) as nat)[a - addr] == le_split(val, k as nat)[a - addr]);
                        }
                    }
                }
            }
            k = k + 1;
        }
        proof {
            assert(regions_view(self.map@) =~= store_le(old_view, addr, size as nat, val));
            assert forall|a: u64, s: nat| access_in(self.map@, a, s) == access_in(old_map, a, s) by {
                assert(region_index_of(self.map@, a) == region_index_of(old_map, a));
            }
        }
    }

    /// The `size` bytes from `addr` on, each as a `u64`.
    fn load_byte(&self, idx: usize, off: usize) -> (r: u64)
        requires
            idx < self.map@.len(),
            off < self.map@[idx as int].backing_storage@.len(),
        ensures
            r == self.map@[idx as int].backing_storage@[off as int],
    {
        self.map[idx].backing_storage[off] as u64
    }
}

impl EmulatorMemory for LittleEndianVirtualMemory {
    open spec fn byte_view(&self) -> Map<u64, u8> {
        regions_view(self.regions())
    }

    open spec fn can_access(&self, addr: u64, size: nat) -> bool {
        access_in(self.regions(), addr, size)
    }

    proof fn lemma_access_in_view(&self, addr: u64, size: nat) {
        let rs = self.regions();
        let idx = region_index_of(rs, addr)->0;
        let j = choose|j: int| 0 <= j < rs.len() && #[trigger] rs[j].contains(addr);
        assert(rs[idx].wf());
        assert forall|i: nat| i < size implies #[trigger] self.byte_view().dom().contains((addr + i) as u64) by {
            lemma_access_bytes(rs, addr, size, i as int);
        }
        if size > 0 {
            lemma_access_bytes(rs, addr, size, size - 1);
        }
    }

    fn read_u8_ne(&self, addr: u64) -> (r: u8) {
        let (idx, off) = self.locate(addr, Ghost(1nat));
        proof {
            lemma_access_bytes(self.map@, addr, 1, 0);
        }
        let r = self.map[idx].backing_storage[off];
        assert(bytes_at(self.byte_view(), addr, 1)[0] == r);
        r
    }

    fn write_u8_ne(&mut self, addr: u64, val: u8) {
        self.store(addr, val as u64, 1);
        assert(store_le(regions_view(old(self).map@), addr, 1, val as u64) =~= store_le(old(self).byte_view(), addr, 1, val as u64));
    }

    fn read_u16_ne(&self, addr: u64) -> (r: u16) {
        let (idx, off) = self.locate(addr, Ghost(2nat));
        proof {
            lemma_access_bytes(self.map@, addr, 2, 0);
            lemma_access_bytes(self.map@, addr, 2, 1);
        }
        let b0 = self.load_byte(idx, off);
        let b1 = self.load_byte(idx, off + 1);
        let v = b0 | (b1 << 8u64);
        let ghost bs = bytes_at(self.byte_view(), addr, 2);
        assert(bs[0] == b0 && bs[1] == b1);
        assert(v < 0x10000) by (bit_vector)
            requires
                b0 < 0x100,
                b1 < 0x100,
                v == b0 | (b1 << 8u64),
        ;
        v as u16
    }

    fn write_u16_ne(&mut self, addr: u64, val: u16) {
        self.store(addr, val as u64, 2);
    }

    fn read_u32_ne(&self, addr: u64) -> (r: u32) {
        self.read_u32_le(addr)
    }

    fn write_u32_ne(&mut self, addr: u64, val: u32) {
        self.store(addr, val as u64, 4);
    }

    fn read_u64_ne(&self, addr: u64) -> (r: u64) {
        let (idx, off) = self.locate(addr, Ghost(8nat));
        proof {
            lemma_access_bytes(self.map@, addr, 8, 0);
            lemma_access_bytes(self.map@, addr, 8, 1);
            lemma_access_bytes(self.map@, addr, 8, 2);
            lemma_access_bytes(self.map@, addr, 8, 3);
            lemma_access_bytes(self.map@, addr, 8, 4);
            lemma_access_bytes(self.map@, addr, 8, 5);
            lemma_access_bytes(self.map@, addr, 8, 6);
            lemma_access_bytes(self.map@, addr, 8, 7);
        }
        let b0 = self.load_byte(idx, off);
        let b1 = self.load_byte(idx, off + 1);
        let b2 = self.load_byte(idx, off + 2);
        let b3 = self.load_byte(idx, off + 3);
        let b4 = self.load_byte(idx, off + 4);
        let b5 = self.load_byte(idx, off + 5);
        let b6 = self.load_byte(idx, off + 6);
        let b7 = self.load_byte(idx, off + 7);
        let ghost bs = bytes_at(self.byte_view(), addr, 8);
        assert(bs[0] == b0 && bs[1] == b1 && bs[2] == b2 && bs[3] == b3);
        assert(bs[4] == b4 && bs[5] == b5 && bs[6] == b6 && bs[7] == b7);
        b0 | (b1 << 8u64) | (b2 << 16u64) | (b3 << 24u64) | (b4 << 32u64) | (b5 << 40u64) | (b6
            << 48u64) | (b7 << 56u64)
    }

    fn write_u64_ne(&mut self, addr: u64, val: u64) {
        self.store(addr, val, 8);
    }

    fn read_u32_le(&self, addr: u64) -> (r: u32) {
        let (idx, off) = self.locate(addr, Ghost(4nat));
        proof {
            lemma_access_bytes(self.map@, addr, 4, 0);
            lemma_access_bytes(self.map@, addr, 4, 1);
            lemma_access_bytes(self.map@, addr, 4, 2);
            lemma_access_bytes(self.map@, addr, 4, 3);
        }
        let b0 = self.load_byte(idx, off);
        let b1 = self.load_byte(idx, off + 1);
        let b2 = self.load_byte(idx, off + 2);
        let b3 = self.load_byte(idx, off + 3);
        let v = b0 | (b1 << 8u64) | (b2 << 16u64) | (b3 << 24u64);
        let ghost bs = bytes_at(self.byte_view(), addr, 4);
        assert(bs[0] == b0 && bs[1] == b1 && bs[2] == b2 && bs[3] == b3);
        assert(v < 0x1_0000_0000) by (bit_vector)
            requires
                b0 < 0x100,
                b1 < 0x100,
                b2 < 0x100,
                b3 < 0x100,
                v == b0 | (b1 << 8u64) | (b2 << 16u64) | (b3 << 24u64),
        ;
        v as u32
    }
}

/// An address in a process's virtual memory, of a value of type `T`.
pub struct UserPointer<T: ?Sized> {
    inner: u64,
    phantom_hold: core::marker::PhantomData<T>,
}

impl<T: ?Sized> UserPointer<T> {
    pub closed spec fn addr(&self) -> u64 {
        self.inner
    }

    /// A pointer to `addr`; nothing is checked until it is used.
    pub fn from_mem(addr: u64) -> (r: Self)
        ensures
            r.addr() == addr,
    {
        UserPointer { inner: addr, phantom_hold: core::marker::PhantomData }
    }

    pub fn get_inner(&self) -> (r: u64)
        ensures
            r == self.addr(),
    {
        self.inner
    }
}

impl UserPointer<u8> {
    /// The byte the pointer points to, if it is mapped.
    pub fn try_as_ref(&self, virtual_memory: &LittleEndianVirtualMemory) -> (r: Option<u8>)
        requires
            regions_wf(virtual_memory.regions()),
        ensures
            r == if virtual_memory.byte_view().dom().contains(self.addr()) {
                Some(virtual_memory.byte_view()[self.addr()])
            } else {
                None
            },
    {
        match virtual_memory.try_map(self.inner) {
            Some((region, info)) => {
                proof {
                    let rs = virtual_memory.regions();
                    let j = choose|j: int| 0 <= j < rs.len() && #[trigger] rs[j].contains(self.inner);
                }
                let _l = region.len();
                Some(region.backing_storage[info.offset_in_region])
            },
            None => None,
        }
    }
}

/// The number of bytes of a `usize`.
pub open spec fn usize_bytes() -> nat {
    if usize::BITS == 64 {
        8
    } else {
        4
    }
}

impl UserPointer<usize> {
    /// The little-endian `usize` the pointer points to, if the first region
    /// that holds its address holds all its bytes.
    pub fn try_as_ref(&self, virtual_memory: &LittleEndianVirtualMemory) -> (r: Option<usize>)
        requires
            regions_wf(virtual_memory.regions()),
        ensures
            r matches Some(v) ==> v == le_combine(
                bytes_at(virtual_memory.byte_view(), self.addr(), usize_bytes()),
            ),
            r is None <==> !virtual_memory.can_access(self.addr(), usize_bytes()),
    {
        let size: usize = if usize::BITS == 64 {
            8
        } else {
            4
        };
        match virtual_memory.try_map(self.inner) {
            Some((region, info)) => {
                let len = region.len();
                if info.offset_in_region <= len && len - info.offset_in_region >= size {
                    proof {
                        let rs = virtual_memory.regions();
                        let j = choose|j: int| 0 <= j < rs.len() && #[trigger] rs[j].contains(self.inner);
                    }
                    if usize::BITS == 64 {
                        let v = virtual_memory.read_u64_ne(self.inner);
                        Some(v as usize)
                    } else {
                        let v = virtual_memory.read_u32_ne(self.inner);
                        Some(v as usize)
                    }
                } else {
                    None
                }
            },
            None => None,
        }
    }
}

impl UserPointer<[u8]> {
    /// The `count` bytes from the pointer on, if the first region that holds
    /// its address holds them all.
    pub fn try_as_ref(&self, virtual_memory: &LittleEndianVirtualMemory, count: usize) -> (r: Option<Vec<u8>>)
        requires
            regions_wf(virtual_memory.regions()),
        ensures
            r matches Some(v) ==> virtual_memory.can_access(self.addr(), count as nat) && v@ == bytes_at(
                virtual_memory.byte_view(),
                self.addr(),
                count as nat,
            ),
            r is None <==> !virtual_memory.can_access(self.addr(), count as nat),
    {
        match virtual_memory.try_map(self.inner) {
            Some((region, info)) => {
                let len = region.len();
                let off = info.offset_in_region;
                if off <= len && len - off >= count {
                    let ghost rs = virtual_memory.regions();
                    proof {
                        let j = choose|j: int| 0 <= j < rs.len() && #[trigger] rs[j].contains(self.inner);
                    }
                    let mut out: Vec<u8> = Vec::new();
                    let mut k: usize = 0;
                    while k < count
                        invariant
                            k <= count,
                            off + count <= len,
                            len == region.backing_storage@.len(),
                            *region == rs[region_index_of(rs, self.inner)->0],
                            off == self.inner - region.virtual_start,
                            access_in(rs, self.inner, count as nat),
                            rs == virtual_memory.regions(),
                            out@.len() == k,
                            forall|i: int| 0 <= i < k ==> #[trigger] out@[i] == bytes_at(
                                virtual_memory.byte_view(),
                                self.inner,
                                count as nat,
                            )[i],
                        decreases count - k,
                    {
                        proof {
                            lemma_access_bytes(rs, self.inner, count as nat, k as int);
                        }
                        out.push(region.backing_storage[off + k]);
                        k = k + 1;
                    }
                    assert(out@ =~= bytes_at(virtual_memory.byte_view(), self.inner, count as nat));
                    Some(out)
                } else {
                    None
                }
            },
            None => None,
        }
    }
}

/// The memory image `m` with the bytes `data` stored from `addr` on.
pub open spec fn store_bytes(m: Map<u64, u8>, addr: u64, data: Seq<u8>) -> Map<u64, u8> {
    Map::new(
        |a: u64| m.dom().contains(a),
        |a: u64|
            if addr <= a < addr + data.len() {
                data[a - addr]
            } else {
                m[a]
            },
    )
}

impl UserPointer<[u8]> {
    /// Writes `data` from the pointer on, if the first region that holds its
    /// address holds all of it; else changes nothing.
    pub fn try_write(&self, virtual_memory: &mut LittleEndianVirtualMemory, data: &[u8]) -> (r: Option<()>)
        requires
            regions_wf(old(virtual_memory).regions()),
        ensures
            regions_wf(final(virtual_memory).regions()),
            r is Some <==> old(virtual_memory).can_access(self.addr(), data@.len()),
            r is Some ==> final(virtual_memory).byte_view() == store_bytes(
                old(virtual_memory).byte_view(),
                self.addr(),
                data@,
            ),
            r is None ==> *final(virtual_memory) == *old(virtual_memory),
            forall|a: u64, s: nat| #[trigger] final(virtual_memory).can_access(a, s) == old(virtual_memory).can_access(a, s),
    {
        let addr = self.inner;
        let count = data.len();
        let (idx, off) = match virtual_memory.try_map(addr) {
            Some((region, info)) => {
                let len = region.len();
                if info.offset_in_region <= len && len - info.offset_in_region >= count {
                    proof {
                        let rs = virtual_memory.regions();
                        let j = choose|j: int| 0 <= j < rs.len() && #[trigger] rs[j].contains(addr);
                    }
                    (info.region_index, info.offset_in_region)
                } else {
                    return None;
                }
            },
            None => {
                return None;
            },
        };
        let ghost old_map = virtual_memory.map@;
        let ghost old_view = regions_view(old_map);
        assert(access_in(old_map, addr, count as nat));
        let mut k: usize = 0;
        while k < count
            invariant
                k <= count,
                count == data@.len(),
                access_in(old_map, addr, count as nat),
                region_index_of(old_map, addr) == Some(idx as int),
                idx < old_map.len(),
                off == addr - old_map[idx as int].virtual_start,
                off + count <= old_map[idx as int].backing_storage@.len(),
                old_map[idx as int].backing_storage@.len() <= usize::MAX,
                old_view == regions_view(old_map),
                regions_wf(virtual_memory.map@),
                virtual_memory.map@.len() == old_map.len(),
                forall|j: int| 0 <= j < virtual_memory.map@.len() ==> (#[trigger] virtual_memory.map@[j]).virtual_start == old_map[j].virtual_start
                    && virtual_memory.map@[j].backing_storage@.len() == old_map[j].backing_storage@.len(),
                forall|a: u64| #[trigger] region_index_of(virtual_memory.map@, a) == region_index_of(old_map, a),
                regions_view(virtual_memory.map@) == store_bytes(old_view, addr, data@.subrange(0, k as int)),
            decreases count - k,
        {
            let b = data[k];
            virtual_memory.write_byte(idx, off + k, b);
            proof {
                lemma_access_bytes(old_map, addr, count as nat, k as int);
                let target = (addr + k) as u64;
                assert(target == (old_map[idx as int].virtual_start + off + k) as u64);
                assert(regions_view(virtual_memory.map@) =~= store_bytes(old_view, addr, data@.subrange(0, k + 1))) by {
                    assert forall|a: u64| regions_view(virtual_memory.map@).dom().contains(a) implies #[trigger] regions_view(virtual_memory.map@)[a] == store_bytes(old_view, addr, data@.subrange(0, k + 1))[a] by {
                        if addr <= a < addr + k {
                            assert(data@.subrange(0, k + 1)[a - addr] == data@.subrange(0, k as int)[a - addr]);
                        }
                    }
                }
            }
            k = k + 1;
        }
        proof {
            assert(data@.subrange(0, count as int) =~= data@);
            assert forall|a: u64, s: nat| #[trigger] access_in(virtual_memory.map@, a, s) == access_in(old_map, a, s) by {
                assert(region_index_of(virtual_memory.map@, a) == region_index_of(old_map, a));
            }
        }
        Some(())
    }
}

} // verus!
