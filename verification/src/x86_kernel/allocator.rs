//! The x86 kernel's bump allocator: like the kernel's, but the top of the
//! stack is not put back where an allocation does not fit, and freeing the
//! last allocation always frees the whole heap.
//!
//! Addresses are plain numbers here, 0 standing for the null pointer.
use crate::kernel::allocator::{sort_descending, stash_empty, Layout, Stashed, STASH_SLOTS};
use vstd::prelude::*;

verus! {

broadcast use vstd::seq_lib::group_to_multiset_ensures, vstd::multiset::group_multiset_properties;

/// A bump allocator over the memory from `base` on, `len` bytes long.
pub struct BasicAlloc {
    pub base: usize,
    pub len: usize,
    pub alloc_count: usize,
    pub next: usize,
    pub stashed_deallocations: Vec<Stashed>,
}

impl BasicAlloc {
    /// An allocator with no memory yet and an empty stash.
    pub fn new() -> (r: Self)
        ensures
            r.base == 0,
            r.len == 0,
            r.alloc_count == 0,
            r.next == 0,
            r.stashed_deallocations@.len() == STASH_SLOTS,
            stash_empty(r.stashed_deallocations@),
    {
        let mut stash: Vec<Stashed> = Vec::new();
        let mut k: usize = 0;
        while k < STASH_SLOTS
            invariant
                k <= STASH_SLOTS,
                stash@.len() == k,
                stash_empty(stash@),
            decreases STASH_SLOTS - k,
        {
            stash.push((0, Layout::new_u8()));
            k = k + 1;
        }
        BasicAlloc { base: 0, len: 0, alloc_count: 0, next: 0, stashed_deallocations: stash }
    }

    /// Points the allocator at `len` bytes from `base` on.
    pub fn init(&mut self, base: usize, len: usize)
        ensures
            *final(self) == (BasicAlloc { base, len, ..*old(self) }),
    {
        self.base = base;
        self.len = len;
    }

    /// The bytes in use, up to the top of the stack.
    pub fn get_heap_size(&self) -> (r: usize)
        ensures
            r == self.next,
    {
        self.next
    }

    /// The first free slot of the stash.
    pub fn find_free_ind(&self) -> (r: Option<usize>)
        ensures
            match r {
                Some(i) => i < self.stashed_deallocations@.len() && self.stashed_deallocations@[i as int].0 == 0
                    && forall|k: int| 0 <= k < i ==> self.stashed_deallocations@[k].0 != 0,
                None => forall|k: int|
                    0 <= k < self.stashed_deallocations@.len() ==> self.stashed_deallocations@[k].0 != 0,
            },
    {
        let mut i: usize = 0;
        while i < self.stashed_deallocations.len()
            invariant
                i <= self.stashed_deallocations@.len(),
                forall|k: int| 0 <= k < i ==> self.stashed_deallocations@[k].0 != 0,
            decreases self.stashed_deallocations@.len() - i,
        {
            if self.stashed_deallocations[i].0 == 0 {
                return Some(i);
            }
            i = i + 1;
        }
        None
    }

    /// Frees the allocation at `ptr` where it is on top of the stack, and
    /// everything where no allocation is left; whether it freed anything.
    fn try_dealloc(&mut self, ptr: usize, layout: Layout) -> (r: bool)
        requires
            old(self).stashed_deallocations@.len() == STASH_SLOTS,
        ensures
            final(self).stashed_deallocations@.len() == STASH_SLOTS,
            final(self).base == old(self).base,
            final(self).len == old(self).len,
            final(self).alloc_count == old(self).alloc_count,
            final(self).next <= old(self).next,
            r == (ptr + layout.size == old(self).base + old(self).next && old(self).next >= layout.size
                || old(self).alloc_count == 0),
            old(self).alloc_count == 0 ==> final(self).next == 0 && stash_empty(final(self).stashed_deallocations@),
            old(self).alloc_count != 0 && ptr + layout.size == old(self).base + old(self).next && old(self).next
                >= layout.size ==> final(self).next == old(self).next - layout.size && final(self).stashed_deallocations
                == old(self).stashed_deallocations,
            !r ==> *final(self) == *old(self),
    {
        let mut did_dealloc = false;
        if ptr as u128 + layout.size as u128 == self.base as u128 + self.next as u128 && self.next >= layout.size {
            self.next = self.next - layout.size;
            did_dealloc = true;
        }
        if self.alloc_count == 0 {
            self.next = 0;
            let mut k: usize = 0;
            let n = self.stashed_deallocations.len();
            while k < n
                invariant
                    n == self.stashed_deallocations@.len(),
                    n == STASH_SLOTS,
                    k <= n,
                    self.base == old(self).base,
                    self.len == old(self).len,
                    self.alloc_count == old(self).alloc_count,
                    self.next == 0,
                    forall|i: int| 0 <= i < k ==> #[trigger] self.stashed_deallocations@[i] == (
                        0usize,
                        Layout { size: 1, align: 1 },
                    ),
                decreases n - k,
            {
                self.stashed_deallocations.set(k, (0, Layout::new_u8()));
                k = k + 1;
            }
            did_dealloc = true;
        }
        did_dealloc
    }

    /// Allocates `layout.size` bytes aligned to `layout.align` on top of the
    /// stack; 0 where the heap is full, in which case the top of the stack
    /// has still moved. Alignment padding is stashed as a deallocation.
    pub fn allocate(&mut self, layout: Layout) -> (r: usize)
        requires
            old(self).stashed_deallocations@.len() == STASH_SLOTS,
            layout.align > 0,
            old(self).base + old(self).next + 2 * layout.align + layout.size <= usize::MAX,
            old(self).alloc_count < usize::MAX,
        ensures
            final(self).stashed_deallocations@.len() == STASH_SLOTS,
            final(self).base == old(self).base,
            final(self).len == old(self).len,
            ({
                let rem = old(self).next % layout.align;
                let pad: int = if rem != 0 { layout.align - rem } else { 0 };
                let start = old(self).next + pad;
                if pad != 0 && start > old(self).len {
                    r == 0 && final(self).next == start && final(self).alloc_count == old(self).alloc_count
                } else if start + layout.size >= old(self).len {
                    r == 0 && final(self).next == start + layout.size && final(self).alloc_count
                        == old(self).alloc_count
                } else {
                    r == old(self).base + start && final(self).next == start + layout.size
                        && final(self).alloc_count == old(self).alloc_count + 1
                }
            }),
    {
        let extra = self.next % layout.align;
        if extra != 0 {
            let padding = Layout { size: layout.align - extra, align: 1 };
            self.next = self.next + padding.size;
            if self.next > self.len {
                return 0;
            }
            let padding_ptr = self.base + self.next + padding.size;
            match self.find_free_ind() {
                Some(ind) => {
                    self.stashed_deallocations.set(ind, (padding_ptr, padding));
                },
                None => {},
            }
        }
        self.next = self.next + layout.size;
        if self.next >= self.len {
            return 0;
        }
        self.alloc_count = self.alloc_count + 1;
        self.base + self.next - layout.size
    }

    /// Frees the allocation at `ptr`: at once where it is on top of the
    /// stack, else it is stashed; then the stash is sorted, highest address
    /// first, and freed from the top while it can be. Freeing the last
    /// allocation frees the whole heap.
    pub fn dealloc(&mut self, ptr: usize, layout: Layout)
        requires
            old(self).stashed_deallocations@.len() == STASH_SLOTS,
            old(self).alloc_count > 0,
        ensures
            final(self).stashed_deallocations@.len() == STASH_SLOTS,
            final(self).base == old(self).base,
            final(self).len == old(self).len,
            final(self).alloc_count == old(self).alloc_count - 1,
            final(self).next <= old(self).next,
            old(self).alloc_count == 1 ==> final(self).next == 0 && stash_empty(final(self).stashed_deallocations@),
    {
        self.alloc_count = self.alloc_count - 1;
        let did_dealloc = self.try_dealloc(ptr, layout);
        if !did_dealloc {
            match self.find_free_ind() {
                Some(i) => {
                    self.stashed_deallocations.set(i, (ptr, layout));
                },
                None => {},
            }
        } else {
            let ghost reset = self.next == 0 && stash_empty(self.stashed_deallocations@);
            sort_descending(&mut self.stashed_deallocations);
            proof {
                if reset {
                    assert forall|i: int| 0 <= i < self.stashed_deallocations@.len() implies #[trigger] self.stashed_deallocations@[i]
                        == (0usize, Layout { size: 1, align: 1 }) by {
                        let x = self.stashed_deallocations@[i];
                        assert(self.stashed_deallocations@.to_multiset().count(x) > 0);
                    }
                }
            }
            let n = self.stashed_deallocations.len();
            let mut i: usize = 0;
            while i < n
                invariant
                    self.stashed_deallocations@.len() == STASH_SLOTS,
                    n == STASH_SLOTS,
                    self.base == old(self).base,
                    self.len == old(self).len,
                    self.alloc_count == old(self).alloc_count - 1,
                    self.next <= old(self).next,
                    reset ==> self.next == 0 && stash_empty(self.stashed_deallocations@),
                ensures
                    self.stashed_deallocations@.len() == STASH_SLOTS,
                    self.base == old(self).base,
                    self.len == old(self).len,
                    self.alloc_count == old(self).alloc_count - 1,
                    self.next <= old(self).next,
                    reset ==> self.next == 0 && stash_empty(self.stashed_deallocations@),
                decreases n - i,
            {
                let stashed_dealloc = self.stashed_deallocations[i];
                if stashed_dealloc.0 == 0 {
                    break;
                }
                if self.try_dealloc(stashed_dealloc.0, stashed_dealloc.1) {
                    self.stashed_deallocations.set(i, (0, Layout::new_u8()));
                } else {
                    break;
                }
                i = i + 1;
            }
        }
    }
}

} // verus!
