//! A bump allocator that gives memory back: an allocation on top of the
//! stack is freed at once, others are stashed and freed once everything
//! above them is, and when every allocation is freed the whole heap is.
//!
//! Addresses are plain numbers here, 0 standing for the null pointer.
use vstd::prelude::*;

verus! {

broadcast use vstd::seq_lib::group_to_multiset_ensures, vstd::multiset::group_multiset_properties;

/// The size and alignment of an allocation.
#[derive(Debug, Clone, Copy, PartialEq, Eq, Structural)]
pub struct Layout {
    pub size: usize,
    pub align: usize,
}

impl Layout {
    /// The layout of a byte.
    pub fn new_u8() -> (r: Layout)
        ensures
            r == (Layout { size: 1, align: 1 }),
    {
        Layout { size: 1, align: 1 }
    }

    /// A layout of `size` bytes aligned to `align`: refused unless `align`
    /// is a power of two and `size`, rounded up to it, stays within
    /// `isize::MAX`.
    pub fn from_size_align(size: usize, align: usize) -> (r: Option<Layout>)
        ensures
            r is Some <==> align > 0 && align & ((align - 1) as usize) == 0 && size + align - 1 <= isize::MAX,
            r matches Some(l) ==> l == (Layout { size, align }),
            align == 1 ==> (r is Some <==> size <= isize::MAX),
    {
        assert(1usize & 0usize == 0usize) by (bit_vector);
        if align == 0 || align & (align - 1) != 0 {
            return None;
        }
        if align - 1 > isize::MAX as usize || size > isize::MAX as usize - (align - 1) {
            return None;
        }
        Some(Layout { size, align })
    }
}

/// A stashed deallocation: its address (0 for a free slot) and layout.
pub type Stashed = (usize, Layout);

/// The number of deallocations that can be stashed.
pub const STASH_SLOTS: usize = 1024;

/// Whether the stash is sorted by address, highest first.
pub open spec fn sorted_descending(s: Seq<Stashed>) -> bool {
    forall|i: int, j: int| 0 <= i < j < s.len() ==> s[i].0 >= s[j].0
}

/// Whether every slot of the stash is free.
pub open spec fn stash_empty(s: Seq<Stashed>) -> bool {
    forall|i: int| 0 <= i < s.len() ==> #[trigger] s[i] == (0usize, Layout { size: 1, align: 1 })
}

/// Sorts the stash by address, highest first.
pub fn sort_descending(v: &mut Vec<Stashed>)
    ensures
        final(v)@.len() == old(v)@.len(),
        final(v)@.to_multiset() == old(v)@.to_multiset(),
        sorted_descending(final(v)@),
{
    let n = v.len();
    let mut i: usize = 0;
    while i < n
        invariant
            n == v@.len(),
            i <= n,
            v@.to_multiset() == old(v)@.to_multiset(),
            forall|a: int, b: int| 0 <= a < b < i ==> v@[a].0 >= v@[b].0,
            forall|a: int, b: int| 0 <= a < i <= b < n ==> v@[a].0 >= v@[b].0,
        decreases n - i,
    {
        let mut m = i;
        let mut j = i + 1;
        while j < n
            invariant
                n == v@.len(),
                i < n,
                i <= m < n,
                m < j <= n,
                forall|b: int| i <= b < j ==> v@[m as int].0 >= v@[b].0,
            decreases n - j,
        {
            if v[j].0 > v[m].0 {
                m = j;
            }
            j = j + 1;
        }
        let a = v[i];
        let b = v[m];
        let ghost s0 = v@;
        v.set(i, b);
        v.set(m, a);
        proof {
            let s1 = s0.update(i as int, b);
            assert(s1.to_multiset() == s0.to_multiset().insert(b).remove(a));
            assert(v@ == s1.update(m as int, a));
            assert(v@.to_multiset() == s1.to_multiset().insert(a).remove(s1[m as int]));
            assert(v@.to_multiset() =~= s0.to_multiset());
        }
        i = i + 1;
    }
}

/// A bump allocator over the memory from `base` on, `len` bytes long.
#[derive(Clone)]
pub struct BasicAlloc {
    pub base: usize,
    pub len: usize,
    pub alloc_count: usize,
    pub next: usize,
    /// Whether the addresses are not to be dereferenced (they are virtual).
    pub is_virtual: bool,
    pub stashed_deallocations: Vec<Stashed>,
}

/// A bump allocator for the memory of programs.
pub struct ProgramBasicAlloc(pub BasicAlloc);

impl BasicAlloc {
    /// The heap lies within the addresses and the stash has its slots. (The
    /// top of the stack may lie past the heap once the heap was pointed
    /// elsewhere; nothing is allocated there then.)
    pub open spec fn wf(&self) -> bool {
        &&& self.base + self.len <= usize::MAX
        &&& self.stashed_deallocations@.len() == STASH_SLOTS
    }

    /// An allocator over `len` bytes from `base` on, with nothing allocated.
    pub fn from(base: usize, len: usize, is_virtual: bool) -> (r: Self)
        requires
            base + len <= usize::MAX,
        ensures
            r.wf(),
            r.base == base,
            r.len == len,
            r.alloc_count == 0,
            r.next == 0,
            r.is_virtual == is_virtual,
            stash_empty(r.stashed_deallocations@),
    {
        let mut stash: Vec<Stashed> = Vec::new();
        let mut k: usize = 0;
        while k < STASH_SLOTS
            invariant
                k <= STASH_SLOTS,
                stash@.len() == k,
                stash_empty(stash@),
            decreases STASH_SLOTS - k,
        {
            stash.push((0, Layout::new_u8()));
            k = k + 1;
        }
        BasicAlloc { base, len, alloc_count: 0, next: 0, is_virtual, stashed_deallocations: stash }
    }

    /// Points the allocator at `len` bytes from `base` on; refused once
    /// something is allocated.
    pub fn init(&mut self, base: usize, len: usize) -> (r: Option<()>)
        requires
            old(self).wf(),
            base + len <= usize::MAX,
        ensures
            final(self).wf(),
            old(self).alloc_count != 0 ==> r is None && *final(self) == *old(self),
            old(self).alloc_count == 0 ==> r is Some && *final(self) == (BasicAlloc { base, len, ..*old(self) }),
    {
        if self.alloc_count != 0 {
            return None;
        }
        self.base = base;
        self.len = len;
        Some(())
    }

    /// Adds `len` bytes to the heap.
    pub fn grow_heap_space(&mut self, len: usize)
        requires
            old(self).wf(),
            old(self).base + old(self).len + len <= usize::MAX,
        ensures
            final(self).wf(),
            *final(self) == (BasicAlloc { len: (old(self).len + len) as usize, ..*old(self) }),
    {
        self.len = self.len + len;
    }

    /// The bytes in use, up to the top of the stack.
    pub fn get_heap_used(&self) -> (r: usize)
        ensures
            r == self.next,
    {
        self.next
    }

    /// The size of the heap.
    pub fn get_heap_max(&self) -> (r: usize)
        ensures
            r == self.len,
    {
        self.len
    }

    /// The first free slot of the stash.
    pub fn find_free_dealloc_ind(&self) -> (r: Option<usize>)
        ensures
            match r {
                Some(i) => i < self.stashed_deallocations@.len() && self.stashed_deallocations@[i as int].0 == 0
                    && forall|k: int| 0 <= k < i ==> self.stashed_deallocations@[k].0 != 0,
                None => forall|k: int|
                    0 <= k < self.stashed_deallocations@.len() ==> self.stashed_deallocations@[k].0 != 0,
            },
    {
        let mut i: usize = 0;
        while i < self.stashed_deallocations.len()
            invariant
                i <= self.stashed_deallocations@.len(),
                forall|k: int| 0 <= k < i ==> self.stashed_deallocations@[k].0 != 0,
            decreases self.stashed_deallocations@.len() - i,
        {
            if self.stashed_deallocations[i].0 == 0 {
                return Some(i);
            }
            i = i + 1;
        }
        None
    }

    /// Frees the allocation at `ptr` where it is on top of the stack, or
    /// everything where no allocation is left; whether it did.
    fn try_dealloc(&mut self, ptr: usize, layout: Layout) -> (r: bool)
        requires
            old(self).wf(),
        ensures
            final(self).wf(),
            final(self).base == old(self).base,
            final(self).len == old(self).len,
            final(self).alloc_count == old(self).alloc_count,
            final(self).is_virtual == old(self).is_virtual,
            final(self).next <= old(self).next,
            r == (ptr + layout.size == old(self).base + old(self).next && old(self).next >= layout.size
                || old(self).alloc_count == 0),
            ptr + layout.size == old(self).base + old(self).next && old(self).next >= layout.size ==> final(self).next == old(self).next - layout.size && final(self).stashed_deallocations == old(self).stashed_deallocations,
            !(ptr + layout.size == old(self).base + old(self).next && old(self).next >= layout.size)
                && old(self).alloc_count == 0 ==> final(self).next == 0 && stash_empty(
                final(self).stashed_deallocations@,
            ),
            !r ==> *final(self) == *old(self),
    {
        if ptr as u128 + layout.size as u128 == self.base as u128 + self.next as u128 && self.next >= layout.size {
            self.next = self.next - layout.size;
            return true;
        }
        if self.alloc_count == 0 {
            self.next = 0;
            let mut k: usize = 0;
            let n = self.stashed_deallocations.len();
            while k < n
                invariant
                    n == self.stashed_deallocations@.len(),
                    n == STASH_SLOTS,
                    k <= n,
                    self.base == old(self).base,
                    self.len == old(self).len,
                    self.alloc_count == old(self).alloc_count,
                    self.is_virtual == old(self).is_virtual,
                    self.next == 0,
                    old(self).wf(),
                    forall|i: int| 0 <= i < k ==> #[trigger] self.stashed_deallocations@[i] == (
                        0usize,
                        Layout { size: 1, align: 1 },
                    ),
                decreases n - k,
            {
                self.stashed_deallocations.set(k, (0, Layout::new_u8()));
                k = k + 1;
            }
            return true;
        }
        false
    }

    /// Allocates `layout.size` bytes aligned to `layout.align` on top of the
    /// stack; 0 where the heap is full. Alignment padding is stashed as a
    /// deallocation, so that it goes once the allocations around it go.
    pub fn allocate(&mut self, layout: Layout) -> (r: usize)
        requires
            old(self).wf(),
            layout.align > 0,
            old(self).alloc_count < usize::MAX,
        ensures
            final(self).wf(),
            final(self).base == old(self).base,
            final(self).len == old(self).len,
            final(self).is_virtual == old(self).is_virtual,
            old(self).next % layout.align == 0 ==> final(self).stashed_deallocations == old(self).stashed_deallocations,
            ({
                let pad: int = layout.align - old(self).next % layout.align;
                let st = old(self).stashed_deallocations@;
                old(self).next % layout.align != 0 && old(self).next + pad < old(self).len ==> if exists|i: int|
                    0 <= i < st.len() && #[trigger] st[i].0 == 0 {
                    exists|i: int|
                        0 <= i < st.len() && st[i].0 == 0 && (forall|k: int| 0 <= k < i ==> #[trigger] st[k].0 != 0)
                            && final(self).stashed_deallocations@ == st.update(
                            i,
                            ((old(self).base + old(self).next) as usize, Layout { size: pad as usize, align: 1 }),
                        )
                } else {
                    final(self).stashed_deallocations == old(self).stashed_deallocations
                }
            }),
            ({
                let rem = old(self).next % layout.align;
                let pad: int = if rem != 0 { layout.align - rem } else { 0 };
                let start = old(self).next + pad;
                if pad != 0 && start >= old(self).len {
                    r == 0 && *final(self) == *old(self)
                } else if start + layout.size >= old(self).len {
                    r == 0 && final(self).next == start && final(self).alloc_count == old(self).alloc_count
                } else {
                    r == old(self).base + start && final(self).next == start + layout.size
                        && final(self).alloc_count == old(self).alloc_count + 1
                }
            }),
    {
        let rem = self.next % layout.align;
        if rem != 0 {
            let padding = Layout { size: layout.align - rem, align: 1 };
            if padding.size as u128 + self.next as u128 >= self.len as u128 {
                return 0;
            }
            self.next = self.next + padding.size;
            let padding_ptr = self.base + self.next - padding.size;
            match self.find_free_dealloc_ind() {
                Some(ind) => {
                    self.stashed_deallocations.set(ind, (padding_ptr, padding));
                },
                None => {},
            }
        }
        if layout.size as u128 + self.next as u128 >= self.len as u128 {
            return 0;
        }
        self.next = self.next + layout.size;
        self.alloc_count = self.alloc_count + 1;
        self.base + self.next - layout.size
    }

    /// Frees the allocation at `ptr`: at once where it is on top of the
    /// stack, else it is stashed. After a deallocation the stash is sorted,
    /// highest address first, and freed from the top while it can be. When
    /// the last allocation is freed, the whole heap is.
    pub fn dealloc(&mut self, ptr: usize, layout: Layout)
        requires
            old(self).wf(),
            old(self).alloc_count > 0,
        ensures
            final(self).wf(),
            final(self).base == old(self).base,
            final(self).len == old(self).len,
            final(self).is_virtual == old(self).is_virtual,
            final(self).alloc_count == old(self).alloc_count - 1,
            final(self).next <= old(self).next,
            ptr + layout.size == old(self).base + old(self).next && old(self).next >= layout.size ==> final(self).next <= old(self).next - layout.size,
            ptr + layout.size == old(self).base + old(self).next && old(self).next >= layout.size && stash_empty(
                old(self).stashed_deallocations@,
            ) ==> final(self).next == old(self).next - layout.size && stash_empty(final(self).stashed_deallocations@),
            !(ptr + layout.size == old(self).base + old(self).next && old(self).next >= layout.size)
                && old(self).alloc_count == 1 ==> final(self).next == 0 && stash_empty(
                final(self).stashed_deallocations@,
            ),
    {
        self.alloc_count = self.alloc_count - 1;
        let did_dealloc = self.try_dealloc(ptr, layout);
        if !did_dealloc {
            match self.find_free_dealloc_ind() {
                Some(i) => {
                    self.stashed_deallocations.set(i, (ptr, layout));
                },
                None => {},
            }
        } else {
            let ghost top = ptr + layout.size == old(self).base + old(self).next && old(self).next >= layout.size;
            let ghost reset = self.next == 0 && stash_empty(self.stashed_deallocations@);
            let ghost lone = top && stash_empty(old(self).stashed_deallocations@);
            sort_descending(&mut self.stashed_deallocations);
            proof {
                if reset || lone {
                    assert(stash_empty(self.stashed_deallocations@)) by {
                        assert forall|i: int| 0 <= i < self.stashed_deallocations@.len() implies #[trigger] self.stashed_deallocations@[i]
                            == (0usize, Layout { size: 1, align: 1 }) by {
                            let x = self.stashed_deallocations@[i];
                            assert(self.stashed_deallocations@.to_multiset().count(x) > 0);
                        }
                    }
                }
            }
            let n = self.stashed_deallocations.len();
            let mut i: usize = 0;
            while i < n
                invariant
                    self.wf(),
                    n == STASH_SLOTS,
                    self.base == old(self).base,
                    self.len == old(self).len,
                    self.is_virtual == old(self).is_virtual,
                    self.alloc_count == old(self).alloc_count - 1,
                    self.next <= old(self).next,
                    top ==> self.next <= old(self).next - layout.size,
                    reset ==> self.next == 0 && stash_empty(self.stashed_deallocations@),
                    lone ==> i == 0 && self.next == old(self).next - layout.size && stash_empty(self.stashed_deallocations@),
                ensures
                    self.wf(),
                    self.base == old(self).base,
                    self.len == old(self).len,
                    self.is_virtual == old(self).is_virtual,
                    self.alloc_count == old(self).alloc_count - 1,
                    self.next <= old(self).next,
                    top ==> self.next <= old(self).next - layout.size,
                    reset ==> self.next == 0 && stash_empty(self.stashed_deallocations@),
                    lone ==> self.next == old(self).next - layout.size && stash_empty(self.stashed_deallocations@),
                decreases n - i,
            {
                let stashed_dealloc = self.stashed_deallocations[i];
                if stashed_dealloc.0 == 0 {
                    break;
                }
                if self.try_dealloc(stashed_dealloc.0, stashed_dealloc.1) {
                    self.stashed_deallocations.set(i, (0, Layout::new_u8()));
                } else {
                    break;
                }
                i = i + 1;
            }
        }
    }

    /// Moves the allocation at `ptr` (laid out as `layout`) to a new one of
    /// `new_size` bytes with the same alignment, and frees the old one. The
    /// new address, 0 where the new layout is refused or the heap has no room
    /// (the old allocation then stays), and the number of bytes the caller is
    /// to copy from the old place to the new: the smaller of the two sizes,
    /// none for a heap whose addresses are virtual.
    pub fn realloc(&mut self, ptr: usize, layout: Layout, new_size: usize) -> (r: (usize, usize))
        requires
            old(self).wf(),
            old(self).alloc_count < usize::MAX,
        ensures
            final(self).wf(),
            final(self).base == old(self).base,
            final(self).len == old(self).len,
            final(self).is_virtual == old(self).is_virtual,
            !(layout.align > 0 && layout.align & ((layout.align - 1) as usize) == 0 && new_size + layout.align - 1
                <= isize::MAX) ==> r == (0usize, 0usize) && *final(self) == *old(self),
            r.0 == 0 ==> r.1 == 0,
            r.0 != 0 ==> {
                let rem = old(self).next % layout.align;
                let start = old(self).next + if rem != 0 { layout.align - rem } else { 0 };
                &&& r.0 == old(self).base + start
                &&& final(self).alloc_count == old(self).alloc_count
                &&& final(self).next <= start + new_size
                &&& r.1 == if old(self).is_virtual { 0 } else if layout.size < new_size { layout.size } else { new_size }
            },
    {
        let new_layout = match Layout::from_size_align(new_size, layout.align) {
            Some(l) => l,
            None => return (0, 0),
        };
        let new_ptr = self.allocate(new_layout);
        if new_ptr == 0 {
            return (0, 0);
        }
        let copy_len = if self.is_virtual {
            0
        } else if layout.size < new_size {
            layout.size
        } else {
            new_size
        };
        self.dealloc(ptr, layout);
        (new_ptr, copy_len)
    }
}

} // verus!
