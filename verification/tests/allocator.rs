use ron::kernel::allocator::{sort_descending, BasicAlloc, Layout};
use ron::x86_kernel::allocator::BasicAlloc as X86Alloc;

#[test]
fn bump_allocation_with_padding() {
    let mut a = BasicAlloc::from(0x1000, 0x100, false);
    assert_eq!(a.allocate(Layout { size: 16, align: 8 }), 0x1000);
    assert_eq!(a.allocate(Layout { size: 4, align: 8 }), 0x1010);
    assert_eq!(a.get_heap_used(), 20);
    // 4 bytes of padding bring the next allocation to 24
    assert_eq!(a.allocate(Layout { size: 8, align: 8 }), 0x1018);
    assert_eq!(a.get_heap_used(), 32);
    assert_eq!(a.find_free_dealloc_ind(), Some(1));
    assert_eq!(a.stashed_deallocations[0].0, 0x1014);
}

#[test]
fn freeing_from_the_top_takes_the_padding_along() {
    let mut a = BasicAlloc::from(0x1000, 0x100, false);
    let p1 = a.allocate(Layout { size: 16, align: 8 });
    let p2 = a.allocate(Layout { size: 4, align: 8 });
    let p3 = a.allocate(Layout { size: 8, align: 8 });
    a.dealloc(p3, Layout { size: 8, align: 8 });
    assert_eq!(a.get_heap_used(), 20);
    assert_eq!(a.find_free_dealloc_ind(), Some(0));
    a.dealloc(p2, Layout { size: 4, align: 8 });
    assert_eq!(a.get_heap_used(), 16);
    a.dealloc(p1, Layout { size: 16, align: 8 });
    assert_eq!(a.get_heap_used(), 0);
    assert_eq!(a.alloc_count, 0);
}

#[test]
fn freeing_below_the_top_is_stashed_until_everything_goes() {
    let mut a = BasicAlloc::from(0x1000, 0x100, false);
    let p1 = a.allocate(Layout { size: 8, align: 1 });
    let p2 = a.allocate(Layout { size: 8, align: 1 });
    a.dealloc(p1, Layout { size: 8, align: 1 });
    assert_eq!(a.get_heap_used(), 16);
    assert_eq!(a.stashed_deallocations[0].0, p1);
    a.dealloc(p2, Layout { size: 8, align: 1 });
    assert_eq!(a.get_heap_used(), 0);
    assert_eq!(a.find_free_dealloc_ind(), Some(0));
}

#[test]
fn full_heap_gives_null() {
    let mut a = BasicAlloc::from(0x1000, 16, false);
    assert_eq!(a.allocate(Layout { size: 16, align: 1 }), 0);
    assert_eq!(a.get_heap_used(), 0);
    assert_eq!(a.allocate(Layout { size: 15, align: 1 }), 0x1000);
    a.grow_heap_space(16);
    assert_eq!(a.get_heap_max(), 32);
}

#[test]
fn init_is_refused_once_something_is_allocated() {
    let mut a = BasicAlloc::from(0, 0, true);
    assert_eq!(a.init(0x2000, 0x100), Some(()));
    assert_eq!(a.allocate(Layout { size: 4, align: 4 }), 0x2000);
    assert_eq!(a.init(0x3000, 0x100), None);
    assert_eq!(a.base, 0x2000);
}

#[test]
fn stash_sorts_highest_first() {
    let l = Layout::new_u8();
    let mut v = vec![(3usize, l), (9, l), (0, l), (5, l)];
    sort_descending(&mut v);
    let addrs: Vec<usize> = v.iter().map(|e| e.0).collect();
    assert_eq!(addrs, vec![9, 5, 3, 0]);
}

#[test]
fn x86_allocator_frees_everything_with_the_last_allocation() {
    let mut a = X86Alloc::new();
    a.init(0x1000, 0x100);
    let p1 = a.allocate(Layout { size: 8, align: 1 });
    let p2 = a.allocate(Layout { size: 8, align: 1 });
    assert_eq!((p1, p2), (0x1000, 0x1008));
    assert_eq!(a.get_heap_size(), 16);
    a.dealloc(p1, Layout { size: 8, align: 1 });
    assert_eq!(a.find_free_ind(), Some(1));
    a.dealloc(p2, Layout { size: 8, align: 1 });
    assert_eq!(a.get_heap_size(), 0);
    assert_eq!(a.find_free_ind(), Some(0));
}
