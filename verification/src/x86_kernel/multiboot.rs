//! The multiboot header that marks the kernel image, and the check of the
//! value the boot loader hands over.
use vstd::prelude::*;

verus! {

pub const MULTIBOOT_MAGIC: u32 = 0x1BADB002;

pub const MULTIBOOT_FLAGS: u32 = 0x0;

/// The value a multiboot boot loader leaves in the first register.
pub const MULTIBOOT_BOOTLOADER_MAGIC: u32 = 0x2BADB002;

/// The three words of the header: magic, flags, and a checksum that makes
/// the three add up to zero (modulo 2^32).
pub fn multiboot_header() -> (r: [u32; 3])
    ensures
        r@ == seq![MULTIBOOT_MAGIC, MULTIBOOT_FLAGS, (0x1_0000_0000 - (MULTIBOOT_MAGIC + MULTIBOOT_FLAGS)) as u32],
        (r@[0] + r@[1] + r@[2]) % 0x1_0000_0000 == 0,
{
    let checksum: u32 = 0u32.wrapping_sub(MULTIBOOT_MAGIC + MULTIBOOT_FLAGS);
    [MULTIBOOT_MAGIC, MULTIBOOT_FLAGS, checksum]
}

/// Whether `r1` holds the value a multiboot boot loader leaves there: the
/// test that `init` demands of its caller.
pub fn booted_by_multiboot(r1: u32) -> (r: bool)
    ensures
        r == (r1 == MULTIBOOT_BOOTLOADER_MAGIC),
{
    r1 == MULTIBOOT_BOOTLOADER_MAGIC
}

/// The tag type of the boot information that carries the EFI system table
/// pointer of a 32-bit firmware.
pub const EFI32_TAG: u32 = 0xB;

/// The tag type of the boot information that carries the EFI system table
/// pointer of a 64-bit firmware.
pub const EFI64_TAG: u32 = 0xC;

/// The number of 32-bit words a tag of length `len` bytes takes, tags being
/// padded to a multiple of 8 bytes.
pub open spec fn tag_words(len: u32) -> int {
    (if len % 8 == 0 { len as int } else { len + (8 - len % 8) }) / 4
}

/// The pointer a tag holds in the `ptr_words` words after its header, the
/// low word first.
pub open spec fn tag_pointer(tags: Seq<u32>, i: int, ptr_words: nat) -> u64 {
    if ptr_words == 2 {
        (tags[i + 2] as u64) | ((tags[i + 3] as u64) << 32u64)
    } else if ptr_words == 1 {
        tags[i + 2] as u64
    } else {
        0
    }
}

/// The walk over the boot information tags from word `i` on, with `acc`
/// the pointer bits gathered so far from EFI tags: `Some` of the gathered
/// pointer once the end tag (type 0, 8 bytes) is reached, `None` where the
/// tags run past the end of `tags` or a tag has no length.
pub open spec fn efi_scan(tags: Seq<u32>, i: int, acc: u64, ptr_words: nat) -> Option<u64>
    decreases tags.len() - i,
{
    if i < 0 || i + 2 > tags.len() {
        None
    } else {
        let id = tags[i];
        let words = tag_words(tags[i + 1]);
        if id == 0 && words == 2 {
            Some(acc)
        } else if words == 0 || i + words + 2 > tags.len() {
            None
        } else if (id == EFI32_TAG || id == EFI64_TAG) && i + 2 + ptr_words > tags.len() {
            None
        } else {
            let here = if id == EFI32_TAG || id == EFI64_TAG { tag_pointer(tags, i, ptr_words) } else { 0 };
            efi_scan(tags, i + words, acc | here, ptr_words)
        }
    }
}

/// The EFI system table pointer that the boot information `tags` (the words
/// after its fixed header) hand over, as pointers of `ptr_words` words: the
/// bits of every EFI tag's pointer, gathered up to the end tag; 0 where there
/// is no EFI tag. `None` where the tags are malformed: they run past the end
/// of `tags` before the end tag, or a tag has length 0.
pub fn efi_system_table_in_tags(tags: &[u32], ptr_words: usize) -> (r: Option<u64>)
    requires
        ptr_words <= 2,
    ensures
        r == efi_scan(tags@, 0, 0, ptr_words as nat),
{
    let mut acc: u64 = 0;
    let mut i: usize = 0;
    while i <= tags.len()
        invariant
            ptr_words <= 2,
            efi_scan(tags@, 0, 0, ptr_words as nat) == efi_scan(tags@, i as int, acc, ptr_words as nat),
        decreases tags.len() + 1 - i,
    {
        if tags.len() - i < 2 {
            return None;
        }
        let id = tags[i];
        let len = tags[i + 1];
        let padded: u64 = if len % 8 == 0 { len as u64 } else { len as u64 + (8 - len % 8) as u64 };
        let words: u64 = padded / 4;
        if id == 0 && words == 2 {
            return Some(acc);
        }
        if words == 0 || words > (tags.len() - i) as u64 || (tags.len() - i) as u64 - words < 2 {
            return None;
        }
        let efi = id == EFI32_TAG || id == EFI64_TAG;
        if efi && tags.len() - i - 2 < ptr_words {
            return None;
        }
        let mut here: u64 = 0;
        if efi {
            if ptr_words == 2 {
                here = (tags[i + 2] as u64) | ((tags[i + 3] as u64) << 32u64);
            } else if ptr_words == 1 {
                here = tags[i + 2] as u64;
            }
        }
        acc = acc | here;
        i = i + words as usize;
    }
    None
}

/// Checks that the kernel was started by a multiboot boot loader, which
/// leaves its magic value in `r1`; any other value stops the kernel.
pub fn init(r1: u32, _r2: u32)
    requires
        r1 == MULTIBOOT_BOOTLOADER_MAGIC,
{
}

} // verus!
