//! The C memory functions, on byte slices: copy, compare, fill and move.
use vstd::prelude::*;

verus! {

/// The first place below `n` where `a` and `b` differ.
pub open spec fn first_difference(a: Seq<u8>, b: Seq<u8>, n: usize) -> Option<int> {
    if exists|i: int| 0 <= i < n && a[i] != b[i] {
        Some(choose|i: int| 0 <= i < n && a[i] != b[i] && forall|j: int| 0 <= j < i ==> a[j] == b[j])
    } else {
        None
    }
}

/// What `memcmp` says of the first `n` bytes of `a` and `b`: the difference
/// of the first bytes that differ, or 0.
pub open spec fn compare_bytes(a: Seq<u8>, b: Seq<u8>, n: usize) -> int {
    match first_difference(a, b, n) {
        Some(i) => a[i] - b[i],
        None => 0,
    }
}

proof fn lemma_first_difference(a: Seq<u8>, b: Seq<u8>, n: usize, i: usize)
    requires
        i < n,
        a[i as int] != b[i as int],
        forall|j: int| 0 <= j < i ==> a[j] == b[j],
    ensures
        first_difference(a, b, n) == Some(i as int),
{
    let k = choose|k: int| 0 <= k < n && a[k] != b[k] && forall|j: int| 0 <= j < k ==> a[j] == b[j];
    assert(0 <= k < n && a[k] != b[k] && forall|j: int| 0 <= j < k ==> a[j] == b[j]);
    if k < i {
        assert(a[k] == b[k]);
    } else if i < k {
        assert(a[i as int] == b[i as int]);
    }
}

/// The difference of two bytes, as C's `int`.
fn byte_difference(x: u8, y: u8) -> (r: i32)
    ensures
        r == x - y,
{
    x as i32 - y as i32
}

/// Copies the first `n` bytes of `src` over those of `dest`.
pub fn memcpy(dest: &mut [u8], src: &[u8], n: usize)
    requires
        n <= old(dest)@.len(),
        n <= src@.len(),
    ensures
        final(dest)@ == src@.subrange(0, n as int) + old(dest)@.subrange(n as int, old(dest)@.len() as int),
{
    let mut i: usize = 0;
    while i < n
        invariant
            i <= n,
            n <= dest@.len(),
            n <= src@.len(),
            dest@.len() == old(dest)@.len(),
            dest@ == src@.subrange(0, i as int) + old(dest)@.subrange(i as int, old(dest)@.len() as int),
        decreases n - i,
    {
        dest[i] = src[i];
        i = i + 1;
        assert(dest@ =~= src@.subrange(0, i as int) + old(dest)@.subrange(i as int, old(dest)@.len() as int));
    }
}

/// Compares the first `n` bytes of `ptr1` and `ptr2`: the difference of the
/// first bytes that differ, or 0 where they are the same.
pub fn memcmp(ptr1: &[u8], ptr2: &[u8], n: usize) -> (r: i32)
    requires
        n <= ptr1@.len(),
        n <= ptr2@.len(),
    ensures
        r == compare_bytes(ptr1@, ptr2@, n),
{
    let mut i: usize = 0;
    while i < n
        invariant
            i <= n,
            n <= ptr1@.len(),
            n <= ptr2@.len(),
            forall|j: int| 0 <= j < i ==> ptr1@[j] == ptr2@[j],
        decreases n - i,
    {
        if ptr1[i] != ptr2[i] {
            proof {
                lemma_first_difference(ptr1@, ptr2@, n, i);
            }
            return byte_difference(ptr1[i], ptr2[i]);
        }
        i = i + 1;
    }
    0
}

/// The same as [`memcmp`].
pub fn bcmp(ptr1: &[u8], ptr2: &[u8], n: usize) -> (r: i32)
    requires
        n <= ptr1@.len(),
        n <= ptr2@.len(),
    ensures
        r == compare_bytes(ptr1@, ptr2@, n),
{
    memcmp(ptr1, ptr2, n)
}

/// Sets the first `n` bytes of `dest` to `c` (as a byte).
pub fn memset(dest: &mut [u8], c: i32, n: usize)
    requires
        n <= old(dest)@.len(),
    ensures
        final(dest)@ == Seq::new(n as nat, |_i: int| c as u8) + old(dest)@.subrange(n as int, old(dest)@.len() as int),
{
    let b = c as u8;
    let mut i: usize = 0;
    while i < n
        invariant
            i <= n,
            n <= dest@.len(),
            b == c as u8,
            dest@.len() == old(dest)@.len(),
            dest@ == Seq::new(i as nat, |_i: int| b) + old(dest)@.subrange(i as int, old(dest)@.len() as int),
        decreases n - i,
    {
        dest[i] = b;
        i = i + 1;
        assert(dest@ =~= Seq::new(i as nat, |_i: int| b) + old(dest)@.subrange(i as int, old(dest)@.len() as int));
    }
}

/// Copies `n` bytes of `buf` from `src` on to `dest` on, as through a
/// buffer in between, so that the ranges may overlap.
pub fn memmove(buf: &mut [u8], dest: usize, src: usize, n: usize)
    requires
        dest + n <= old(buf)@.len(),
        src + n <= old(buf)@.len(),
    ensures
        final(buf)@.len() == old(buf)@.len(),
        forall|i: int| dest <= i < dest + n ==> #[trigger] final(buf)@[i] == old(buf)@[src + i - dest],
        forall|i: int| 0 <= i < old(buf)@.len() && !(dest <= i < dest + n) ==> #[trigger] final(buf)@[i] == old(buf)@[i],
{
    if dest == src {
        return;
    }
    let len: usize = buf.len();
    if dest < src {
        let mut i: usize = 0;
        while i < n
            invariant
                dest < src,
                i <= n,
                dest + n <= buf@.len(),
                src + n <= buf@.len(),
                buf@.len() == old(buf)@.len(),
                buf@.len() == len,
                forall|k: int| dest <= k < dest + i ==> #[trigger] buf@[k] == old(buf)@[src + k - dest],
                forall|k: int| 0 <= k < old(buf)@.len() && !(dest <= k < dest + i) ==> #[trigger] buf@[k] == old(buf)@[k],
            decreases n - i,
        {
            let b = buf[src + i];
            buf[dest + i] = b;
            i = i + 1;
        }
    } else {
        let mut i: usize = n;
        while i > 0
            invariant
                dest > src,
                i <= n,
                dest + n <= buf@.len(),
                src + n <= buf@.len(),
                buf@.len() == old(buf)@.len(),
                buf@.len() == len,
                forall|k: int| dest + i <= k < dest + n ==> #[trigger] buf@[k] == old(buf)@[src + k - dest],
                forall|k: int| 0 <= k < old(buf)@.len() && !(dest + i <= k < dest + n) ==> #[trigger] buf@[k] == old(buf)@[k],
            decreases i,
        {
            i = i - 1;
            let b = buf[src + i];
            buf[dest + i] = b;
        }
    }
}

} // verus!
