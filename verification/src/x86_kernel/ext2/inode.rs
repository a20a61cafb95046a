//! The data of an inode: its blocks, found through the twelve direct pointers
//! and the singly, doubly and triply indirect blocks of pointers, and the
//! bytes of the file that they hold.
use crate::x86_kernel::ext2::fs::{block_at, block_in_range, ceil_div, changed_within, special_block_count, Ext2FS};
use crate::x86_kernel::ext2::record::{
    le_encode, le_value, lemma_le_encode_len, lemma_le_value_of_encode, lemma_pow256_values, read_le,
    write_le,
};
use crate::x86_kernel::ext2::structs::{Ext2RawInode, Ext2SuperBlock};
use crate::x86_kernel::vfs::IFile;
use vstd::arithmetic::power2::{lemma2_to64, pow2};
use vstd::prelude::*;

verus! {

/// The number of block pointers that a block holds.
pub open spec fn pointers_per_block(bs: nat) -> nat {
    bs / 4
}

/// Pointer `i` of block `b` on `disk`; `None` where the block is 0 or out of
/// reach, or `i` is past its end.
pub open spec fn block_word(disk: Seq<u8>, bs: nat, b: nat, i: nat) -> Option<u32> {
    if block_in_range(disk, bs, b) && 4 * i + 4 <= bs {
        Some(le_value(block_at(disk, bs, b).subrange((4 * i) as int, (4 * i + 4) as int)) as u32)
    } else {
        None
    }
}

/// For data block `n` past the twelve direct ones: the block that holds its
/// pointer, and where in that block. Blocks `12..12 + p` go through the
/// singly indirect block, the next `p * p` through the doubly indirect one,
/// the next `p * p * p` through the triply indirect one, `p` being the number
/// of pointers in a block.
pub open spec fn pointer_slot(disk: Seq<u8>, bs: nat, inode: Ext2RawInode, n: nat) -> Option<(nat, nat)> {
    let p = pointers_per_block(bs);
    let m = n - 12;
    if m < p {
        Some((inode.singly_indirect_block_pointer as nat, m as nat))
    } else if m - p < p * p {
        let m2 = (m - p) as nat;
        match block_word(disk, bs, inode.doubly_indirect_block_pointer as nat, m2 / p) {
            Some(s) => Some((s as nat, m2 % p)),
            None => None,
        }
    } else if m - p - p * p < p * p * p {
        let m3 = (m - p - p * p) as nat;
        match block_word(disk, bs, inode.triply_indirect_block_pointer as nat, m3 / (p * p)) {
            Some(d) => match block_word(disk, bs, d as nat, (m3 % (p * p)) / p) {
                Some(s) => Some((s as nat, m3 % p)),
                None => None,
            },
            None => None,
        }
    } else {
        None
    }
}

/// The pointer to data block `n` of `inode`.
pub open spec fn data_block_pointer(disk: Seq<u8>, bs: nat, inode: Ext2RawInode, n: nat) -> Option<u32> {
    if n <= 11 {
        Some(inode.direct_block_pointers[n as int])
    } else {
        match pointer_slot(disk, bs, inode, n) {
            Some((b, i)) => block_word(disk, bs, b, i),
            None => None,
        }
    }
}

/// The bytes of data block `n` of `inode`.
pub open spec fn data_block(disk: Seq<u8>, bs: nat, inode: Ext2RawInode, n: nat) -> Option<Seq<u8>> {
    match data_block_pointer(disk, bs, inode, n) {
        Some(p) => if block_in_range(disk, bs, p as nat) {
            Some(block_at(disk, bs, p as nat))
        } else {
            None
        },
        None => None,
    }
}

/// Whether data blocks `start..start + count` of `inode` can all be read.
pub open spec fn blocks_readable(disk: Seq<u8>, bs: nat, inode: Ext2RawInode, start: nat, count: nat) -> bool {
    forall|k: nat| k < count ==> #[trigger] data_block(disk, bs, inode, start + k) is Some
}

/// Data blocks `start..start + count` of `inode`, one after the other.
pub open spec fn blocks_from(disk: Seq<u8>, bs: nat, inode: Ext2RawInode, start: nat, count: nat) -> Seq<u8>
    decreases count,
{
    if count == 0 {
        Seq::empty()
    } else {
        blocks_from(disk, bs, inode, start, (count - 1) as nat) + data_block(
            disk,
            bs,
            inode,
            (start + count - 1) as nat,
        ).unwrap()
    }
}

/// The number of blocks that reading `len` bytes goes through: the block of
/// the first byte, then one per further whole or started block of `len`.
pub open spec fn blocks_to_read(bs: nat, len: nat) -> nat {
    let n = len / bs + if len % bs != 0 {
        1nat
    } else {
        0nat
    };
    if n == 0 {
        1
    } else {
        n
    }
}

/// What reading `len` bytes from `offset` on gives: the blocks from the one
/// that holds `offset`, from `offset` on, cut to `len` bytes.
pub open spec fn read_bytes_result(disk: Seq<u8>, bs: nat, inode: Ext2RawInode, offset: nat, len: nat) -> Seq<
    u8,
> {
    let all = blocks_from(disk, bs, inode, offset / bs, blocks_to_read(bs, len));
    let tail = all.subrange((offset % bs) as int, all.len() as int);
    if tail.len() > len {
        tail.take(len as int)
    } else {
        tail
    }
}

/// Whether the direct pointers `start..start + count` of `inode` are all
/// different.
pub open spec fn distinct_direct(inode: Ext2RawInode, start: nat, count: nat) -> bool {
    forall|j: nat, k: nat| j < k < count ==> #[trigger] inode.direct_block_pointers[(start + j) as int] != #[trigger] inode.direct_block_pointers[(start + k) as int]
}

/// Whether writing `len` bytes from `offset` on goes in whole blocks of the
/// direct pointers, each to a block of its own: `offset` lies on a block
/// boundary (and on an inode-size boundary, where the first block's bytes
/// begin), `len` is a positive number of blocks, the blocks are among the
/// twelve direct ones and their pointers all differ.
pub open spec fn whole_direct_write(inode: Ext2RawInode, bs: nat, inode_size: nat, offset: nat, len: nat) -> bool {
    &&& bs > 0
    &&& inode_size > 0
    &&& len > 0
    &&& len % bs == 0
    &&& offset % bs == 0
    &&& offset % inode_size == 0
    &&& offset / bs + len / bs <= 12
    &&& distinct_direct(inode, offset / bs, len / bs)
}

/// Block `k` of `data`, blocks being `bs` bytes.
pub open spec fn chunk(data: Seq<u8>, bs: nat, k: nat) -> Seq<u8> {
    data.subrange((k * bs) as int, (k * bs + bs) as int)
}

/// A block other than the one written keeps its bytes.
proof fn lemma_other_block_kept(old: Seq<u8>, new: Seq<u8>, bs: nat, p: nat, q: nat)
    requires
        changed_within(old, new, (p * bs) as int, (p * bs + bs) as int),
        p != q,
        block_in_range(old, bs, q),
    ensures
        block_in_range(new, bs, q),
        block_at(new, bs, q) == block_at(old, bs, q),
{
    assert(p * bs + bs <= q * bs || q * bs + bs <= p * bs) by (nonlinear_arith)
        requires
            p != q,
    ;
    assert forall|i: int| 0 <= i < bs implies #[trigger] block_at(new, bs, q)[i] == block_at(old, bs, q)[i] by {
        assert(new[q * bs + i] == old[q * bs + i]);
    }
    assert(block_at(new, bs, q) =~= block_at(old, bs, q));
}

/// Data blocks that each hold their block of `data` read back as `data`.
proof fn lemma_blocks_from_chunks(disk: Seq<u8>, bs: nat, inode: Ext2RawInode, start: nat, count: nat, data: Seq<u8>)
    requires
        bs > 0,
        data.len() >= count * bs,
        forall|k: nat| k < count ==> #[trigger] data_block(disk, bs, inode, start + k) == Some(chunk(data, bs, k)),
    ensures
        blocks_from(disk, bs, inode, start, count) == data.subrange(0, (count * bs) as int),
    decreases count,
{
    if count == 0 {
        assert(data.subrange(0, 0) =~= Seq::<u8>::empty());
    } else {
        let c = (count - 1) as nat;
        assert(c * bs + bs == count * bs) by (nonlinear_arith)
            requires
                c == count - 1,
        ;
        assert(c * bs <= count * bs) by (nonlinear_arith)
            requires
                c == count - 1,
        ;
        lemma_blocks_from_chunks(disk, bs, inode, start, c, data);
        assert(data_block(disk, bs, inode, start + c) == Some(chunk(data, bs, c)));
        assert((start + count - 1) as nat == start + c);
        assert(blocks_from(disk, bs, inode, start, count) == blocks_from(disk, bs, inode, start, c) + chunk(data, bs, c));
        assert(data.subrange(0, (count * bs) as int) =~= data.subrange(0, (c * bs) as int) + chunk(data, bs, c));
    }
}

/// A file reads back what was written: where the data blocks from the one
/// holding `offset` on hold the blocks of `data` (as [`Ext2RawInode::write_bytes`]
/// leaves them after a write in whole blocks), reading `data.len()` bytes
/// from `offset` gives `data`, and every block read is readable.
pub proof fn lemma_file_read_after_write(disk: Seq<u8>, bs: nat, inode: Ext2RawInode, offset: nat, data: Seq<u8>)
    requires
        bs > 0,
        data.len() > 0,
        data.len() % bs == 0,
        offset % bs == 0,
        forall|k: nat| k < data.len() / bs ==> #[trigger] data_block(disk, bs, inode, offset / bs + k) == Some(
            chunk(data, bs, k),
        ),
    ensures
        blocks_readable(disk, bs, inode, offset / bs, blocks_to_read(bs, data.len())),
        read_bytes_result(disk, bs, inode, offset, data.len()) == data,
{
    let n = data.len() / bs;
    assert(n * bs == data.len()) by (nonlinear_arith)
        requires
            n == data.len() / bs,
            data.len() % bs == 0,
            bs > 0,
    ;
    assert(n > 0) by (nonlinear_arith)
        requires
            n * bs == data.len(),
            data.len() > 0,
    ;
    assert(blocks_to_read(bs, data.len()) == n);
    lemma_blocks_from_chunks(disk, bs, inode, offset / bs, n, data);
    assert(data.subrange(0, (n * bs) as int) =~= data);
    let all = blocks_from(disk, bs, inode, offset / bs, n);
    assert(all.subrange(0, all.len() as int) =~= all);
}

/// The number of bytes that writing `len` bytes from `offset` on puts in
/// blocks: one block per whole or started block of `len`, the first from
/// `offset % inode_size` on.
pub open spec fn write_capacity(bs: nat, inode_size: nat, offset: nat, len: nat) -> nat {
    let n = len / bs + if len % bs != 0 {
        1nat
    } else {
        0nat
    };
    let first_offset = offset % inode_size;
    if n == 0 {
        0
    } else if first_offset >= bs {
        ((n - 1) * bs) as nat
    } else {
        (n * bs - first_offset) as nat
    }
}

pub open spec fn min(a: nat, b: nat) -> nat {
    if a <= b {
        a
    } else {
        b
    }
}

pub(crate) proof fn lemma_block_size_facts(sb: Ext2SuperBlock)
    requires
        sb.block_size_log2_minus_10 <= 13,
    ensures
        1024 <= pow2((sb.block_size_log2_minus_10 + 10) as nat) <= 0x80_0000,
        pow2((sb.block_size_log2_minus_10 + 10) as nat) % 4 == 0,
{
    let e = (sb.block_size_log2_minus_10 + 10) as nat;
    lemma2_to64();
    if e > 10 {
        vstd::arithmetic::power2::lemma_pow2_strictly_increases(10, e);
    }
    if e < 23 {
        vstd::arithmetic::power2::lemma_pow2_strictly_increases(e, 23);
    }
    vstd::arithmetic::power2::lemma_pow2_adds(2, (e - 2) as nat);
    assert(pow2(e) == 4 * pow2((e - 2) as nat));
}

impl Ext2RawInode {
    /// The `u32` stored as four little-endian bytes at place `index` of `bytes`.
    fn read_value_from_u32_array_as_le_bytes(bytes: &[u8], index: usize) -> (r: Option<u32>)
        requires
            4 * index + 4 <= bytes@.len(),
        ensures
            r == Some(le_value(bytes@.subrange(4 * index, 4 * index + 4)) as u32),
    {
        let _n = bytes.len();
        let v = read_le(bytes, 4 * index, 4);
        proof {
            crate::x86_kernel::ext2::record::lemma_le_value_bound(bytes@.subrange(4 * index, 4 * index + 4));
            lemma_pow256_values();
        }
        Some(v as u32)
    }

    /// Stores `val` as four little-endian bytes at place `index` of `bytes`.
    fn write_value_to_u32_array_as_le_bytes(bytes: &mut Vec<u8>, index: usize, val: u32) -> (r: Option<()>)
        requires
            4 * index + 4 <= old(bytes)@.len(),
        ensures
            r is Some,
            final(bytes)@.len() == old(bytes)@.len(),
            le_value(final(bytes)@.subrange(4 * index, 4 * index + 4)) == val,
            forall|i: int|
                0 <= i < old(bytes)@.len() && !(4 * index <= i < 4 * index + 4) ==> #[trigger] final(bytes)@[i]
                    == old(bytes)@[i],
    {
        let blen = bytes.len();
        let mut enc: Vec<u8> = Vec::new();
        write_le(&mut enc, val as u64, 4);
        proof {
            lemma_le_encode_len(val as nat, 4);
            lemma_pow256_values();
            lemma_le_value_of_encode(val as nat, 4);
        }
        let mut k: usize = 0;
        while k < 4
            invariant
                k <= 4,
                blen == old(bytes)@.len(),
                4 * index + 4 <= bytes@.len(),
                bytes@.len() == old(bytes)@.len(),
                enc@ == le_encode(val as nat, 4),
                enc@.len() == 4,
                forall|j: int| 0 <= j < k ==> #[trigger] bytes@[4 * index + j] == enc@[j],
                forall|i: int|
                    0 <= i < old(bytes)@.len() && !(4 * index <= i < 4 * index + k) ==> #[trigger] bytes@[i]
                        == old(bytes)@[i],
            decreases 4 - k,
        {
            bytes[4 * index + k] = enc[k];
            k = k + 1;
        }
        assert forall|j: int| 0 <= j < 4 implies #[trigger] bytes@.subrange(4 * index, 4 * index + 4)[j] == enc@[j] by {
            assert(bytes@[4 * index + j] == enc@[j]);
        }
        assert(bytes@.subrange(4 * index, 4 * index + 4) =~= enc@);
        Some(())
    }

    /// Pointer `i` of block `b`.
    fn read_pointer_from_block<D: IFile>(b: u32, i: u64, fs: &Ext2FS<D>) -> (r: Option<u32>)
        requires
            fs.wf(),
            i < pointers_per_block(fs.block_size()),
        ensures
            r is Some ==> r == block_word(fs.disk(), fs.block_size(), b as nat, i as nat),
            block_word(fs.disk(), fs.block_size(), b as nat, i as nat) is None ==> r is None,
    {
        proof {
            lemma_block_size_facts(fs.sb);
        }
        let block = match fs.read_block(b) {
            Some(v) => v,
            None => return None,
        };
        Self::read_value_from_u32_array_as_le_bytes(block.as_slice(), i as usize)
    }

    /// For data block `data_block_number` past the direct ones: the block
    /// that holds its pointer, and the place of the pointer in it.
    fn pointer_slot_exec<D: IFile>(&self, data_block_number: usize, fs: &Ext2FS<D>) -> (r: Option<(u32, u64)>)
        requires
            fs.wf(),
            data_block_number > 11,
        ensures
            r matches Some((b, i)) ==> pointer_slot(fs.disk(), fs.block_size(), *self, data_block_number as nat)
                == Some((b as nat, i as nat)) && i < pointers_per_block(fs.block_size()),
            pointer_slot(fs.disk(), fs.block_size(), *self, data_block_number as nat) is None ==> r is None,
            data_block_number - 12 < fs.block_size() / 4 ==> r == Some(
                (self.singly_indirect_block_pointer, (data_block_number - 12) as u64),
            ),
    {
        proof {
            lemma_block_size_facts(fs.sb);
        }
        let bs = fs.get_block_size();
        let pointers_per_block: u64 = bs as u64 / 4;
        assert(pointers_per_block <= 0x20_0000);
        assert(pointers_per_block * pointers_per_block <= 0x400_0000_0000) by (nonlinear_arith)
            requires
                pointers_per_block <= 0x20_0000,
        ;
        assert(pointers_per_block * pointers_per_block * pointers_per_block <= 0x8000_0000_0000_0000)
            by (nonlinear_arith)
            requires
                pointers_per_block <= 0x20_0000,
                pointers_per_block * pointers_per_block <= 0x400_0000_0000,
        ;
        let ppb2 = pointers_per_block * pointers_per_block;
        let ppb3 = ppb2 * pointers_per_block;
        let m = data_block_number as u64 - 12;
        if m < pointers_per_block {
            return Some((self.singly_indirect_block_pointer, m));
        }
        let m2 = m - pointers_per_block;
        if m2 < ppb2 {
            assert(m2 / pointers_per_block < pointers_per_block) by (nonlinear_arith)
                requires
                    m2 < pointers_per_block * pointers_per_block,
                    pointers_per_block > 0,
            ;
            let singly = match Self::read_pointer_from_block(
                self.doubly_indirect_block_pointer,
                m2 / pointers_per_block,
                fs,
            ) {
                Some(s) => s,
                None => return None,
            };
            return Some((singly, m2 % pointers_per_block));
        }
        let m3 = m2 - ppb2;
        if m3 < ppb3 {
            assert(ppb2 > 0) by (nonlinear_arith)
                requires
                    ppb2 == pointers_per_block * pointers_per_block,
                    pointers_per_block > 0,
            ;
            assert(m3 / ppb2 < pointers_per_block) by (nonlinear_arith)
                requires
                    m3 < ppb2 * pointers_per_block,
                    ppb2 > 0,
            ;
            assert((m3 % ppb2) / pointers_per_block < pointers_per_block) by (nonlinear_arith)
                requires
                    ppb2 == pointers_per_block * pointers_per_block,
                    pointers_per_block > 0,
            ;
            let doubly = match Self::read_pointer_from_block(self.triply_indirect_block_pointer, m3 / ppb2, fs) {
                Some(d) => d,
                None => return None,
            };
            let singly = match Self::read_pointer_from_block(doubly, (m3 % ppb2) / pointers_per_block, fs) {
                Some(s) => s,
                None => return None,
            };
            proof {
                vstd::arithmetic::div_mod::lemma_mod_mod(m3 as int, pointers_per_block as int, pointers_per_block as int);
            }
            return Some((singly, m3 % pointers_per_block));
        }
        None
    }

    /// The pointer to data block `data_block_number`, found through the
    /// direct pointers or the indirect blocks.
    pub fn read_data_block_pointer<D: IFile>(&self, data_block_number: usize, fs: &Ext2FS<D>) -> (r: Option<u32>)
        requires
            fs.wf(),
        ensures
            r is Some ==> r == data_block_pointer(fs.disk(), fs.block_size(), *self, data_block_number as nat),
            data_block_pointer(fs.disk(), fs.block_size(), *self, data_block_number as nat) is None ==> r is None,
            data_block_number <= 11 ==> r == Some(self.direct_block_pointers[data_block_number as int]),
    {
        if data_block_number <= 11 {
            return Some(self.direct_block_pointers[data_block_number]);
        }
        let (b, i) = match self.pointer_slot_exec(data_block_number, fs) {
            Some(slot) => slot,
            None => return None,
        };
        Self::read_pointer_from_block(b, i, fs)
    }

    /// Points data block `data_block_number` at block `pointer`, and frees the
    /// block it pointed at before.
    pub fn write_data_block_pointer<D: IFile>(&mut self, data_block_number: usize, pointer: u32, fs: &mut Ext2FS<D>) -> (r:
        Option<()>)
        requires
            old(fs).wf(),
        ensures
            final(fs).wf(),
            final(fs).sb == (Ext2SuperBlock { unallocated_blocks: final(fs).sb.unallocated_blocks, ..old(fs).sb }),
            final(fs).extended_sb == old(fs).extended_sb,
            final(fs).is_read_only() == old(fs).is_read_only(),
            data_block_number <= 11 ==> r is Some && *final(self) == (Ext2RawInode {
                direct_block_pointers: final(self).direct_block_pointers,
                ..*old(self)
            }) && final(self).direct_block_pointers@ == old(self).direct_block_pointers@.update(
                data_block_number as int,
                pointer,
            ),
            data_block_number > 11 ==> *final(self) == *old(self),
            old(fs).sb.unallocated_blocks <= final(fs).sb.unallocated_blocks <= old(fs).sb.unallocated_blocks + 1,
            data_block_number > 11 && r is Some ==> (pointer_slot(
                old(fs).disk(),
                old(fs).block_size(),
                *old(self),
                data_block_number as nat,
            ) matches Some((b, i)) && block_word(final(fs).disk(), final(fs).block_size(), b, i) == Some(pointer)),
    {
        if data_block_number <= 11 {
            let _ = fs.dealloc_block(self.direct_block_pointers[data_block_number]);
            self.direct_block_pointers[data_block_number] = pointer;
            return Some(());
        }
        let (b, i) = match self.pointer_slot_exec(data_block_number, fs) {
            Some(slot) => slot,
            None => return None,
        };
        proof {
            lemma_block_size_facts(fs.sb);
        }
        let mut block = match fs.read_block(b) {
            Some(v) => v,
            None => return None,
        };
        let old_pointer = match Self::read_value_from_u32_array_as_le_bytes(block.as_slice(), i as usize) {
            Some(p) => p,
            None => return None,
        };
        let _ = fs.dealloc_block(old_pointer);
        match Self::write_value_to_u32_array_as_le_bytes(&mut block, i as usize, pointer) {
            Some(()) => {},
            None => return None,
        }
        let ghost bs = fs.block_size();
        match fs.write_block(b, block.as_slice()) {
            Some(()) => {},
            None => return None,
        }
        proof {
            assert(block_at(fs.disk(), bs, b as nat).subrange(4 * i, 4 * i + 4) =~= block@.subrange(
                4 * i,
                4 * i + 4,
            ));
        }
        Some(())
    }

    /// Data block `data_block_number` of the inode.
    pub fn read_data_block<D: IFile>(&self, data_block_number: usize, fs: &Ext2FS<D>) -> (r: Option<Vec<u8>>)
        requires
            fs.wf(),
        ensures
            r matches Some(v) ==> data_block(fs.disk(), fs.block_size(), *self, data_block_number as nat) == Some(
                v@,
            ),
            data_block(fs.disk(), fs.block_size(), *self, data_block_number as nat) is None ==> r is None,
    {
        let p = match self.read_data_block_pointer(data_block_number, fs) {
            Some(p) => p,
            None => return None,
        };
        fs.read_block(p)
    }

    /// Writes `data` over data block `data_block_number` of the inode.
    pub fn write_data_block<D: IFile>(&self, data_block_number: usize, data: &[u8], fs: &mut Ext2FS<D>) -> (r:
        Option<()>)
        requires
            old(fs).wf(),
            data@.len() == old(fs).block_size(),
        ensures
            final(fs).sb == old(fs).sb,
            final(fs).extended_sb == old(fs).extended_sb,
            final(fs).is_read_only() == old(fs).is_read_only(),
            r is Some ==> {
                let bs = old(fs).block_size();
                &&& data_block_pointer(old(fs).disk(), bs, *self, data_block_number as nat) matches Some(p)
                    && block_in_range(final(fs).disk(), bs, p as nat) && block_at(final(fs).disk(), bs, p as nat)
                    == data@
                &&& final(fs).disk().len() == old(fs).disk().len()
            },
            old(fs).is_read_only() ==> r is None,
            data_block_pointer(old(fs).disk(), old(fs).block_size(), *self, data_block_number as nat) matches Some(p)
                ==> changed_within(
                old(fs).disk(),
                final(fs).disk(),
                p * old(fs).block_size(),
                p * old(fs).block_size() + old(fs).block_size(),
            ),
            data_block_pointer(old(fs).disk(), old(fs).block_size(), *self, data_block_number as nat) is None
                ==> final(fs).disk() == old(fs).disk(),
    {
        let p = match self.read_data_block_pointer(data_block_number, fs) {
            Some(p) => p,
            None => return None,
        };
        fs.write_block(p, data)
    }

    /// The size of the file in bytes (its low 32 bits).
    pub fn get_size(&self) -> (r: usize)
        ensures
            r == self.low32_size,
    {
        self.low32_size as usize
    }

    /// Sets the size of the file, and the number of 512-byte sectors it uses.
    fn set_size(&mut self, new_size: usize)
        ensures
            *final(self) == (Ext2RawInode {
                low32_size: new_size as u32,
                disk_sectors_used: ((new_size as u32) / 512 + if (new_size as u32) % 512 != 0 {
                    1u32
                } else {
                    0u32
                }) as u32,
                ..*old(self)
            }),
    {
        let s = new_size as u32;
        self.low32_size = s;
        self.disk_sectors_used = s / 512 + if s % 512 != 0 {
            1
        } else {
            0
        };
    }

    /// The last data block that holds bytes of the file; `None` for an empty file.
    fn get_last_allocated_data_block_number<D: IFile>(&self, fs: &Ext2FS<D>) -> (r: Option<usize>)
        requires
            fs.wf(),
        ensures
            r == if self.low32_size == 0 {
                None::<usize>
            } else {
                Some(((self.low32_size - 1) as nat / fs.block_size()) as usize)
            },
    {
        if self.get_size() == 0 {
            return None;
        }
        proof {
            lemma_block_size_facts(fs.sb);
        }
        Some((self.get_size() - 1) / fs.get_block_size() as usize)
    }

    /// Frees data block `data_block_number` and points it at block 0.
    pub fn dealloc_data_block<D: IFile>(&mut self, data_block_number: usize, fs: &mut Ext2FS<D>) -> (r: Option<()>)
        requires
            old(fs).wf(),
        ensures
            final(fs).wf(),
            final(fs).sb == (Ext2SuperBlock { unallocated_blocks: final(fs).sb.unallocated_blocks, ..old(fs).sb }),
            final(fs).extended_sb == old(fs).extended_sb,
            final(fs).is_read_only() == old(fs).is_read_only(),
            *final(self) == (Ext2RawInode { direct_block_pointers: final(self).direct_block_pointers, ..*old(self) }),
            data_block_number <= 11 ==> r is Some && final(self).direct_block_pointers@
                == old(self).direct_block_pointers@.update(data_block_number as int, 0),
            data_block_number > 11 ==> *final(self) == *old(self),
            old(fs).sb.unallocated_blocks <= final(fs).sb.unallocated_blocks <= old(fs).sb.unallocated_blocks + 1,
            data_block_number > 11 && r is Some ==> (pointer_slot(
                old(fs).disk(),
                old(fs).block_size(),
                *old(self),
                data_block_number as nat,
            ) matches Some((b, i)) && block_word(final(fs).disk(), final(fs).block_size(), b, i) == Some(0u32)),
    {
        self.write_data_block_pointer(data_block_number, 0, fs)
    }

    /// Allocates a new block, near the group of the file's last block (or in
    /// group 0 for an empty file), as data block `data_block_number`, freeing
    /// the block it pointed at before.
    pub fn alloc_data_block<D: IFile>(&mut self, data_block_number: usize, fs: &mut Ext2FS<D>) -> (r: Option<()>)
        requires
            old(fs).wf(),
        ensures
            final(fs).wf(),
            final(fs).sb == (Ext2SuperBlock { unallocated_blocks: final(fs).sb.unallocated_blocks, ..old(fs).sb }),
            final(fs).extended_sb == old(fs).extended_sb,
            final(fs).is_read_only() == old(fs).is_read_only(),
            *final(self) == (Ext2RawInode { direct_block_pointers: final(self).direct_block_pointers, ..*old(self) }),
            data_block_number > 11 ==> *final(self) == *old(self),
            old(fs).is_read_only() ==> r is None,
            r is Some && data_block_number <= 11 ==> final(self).direct_block_pointers[data_block_number as int]
                >= special_block_count(old(fs).sb) && forall|k: int|
                0 <= k < 12 && k != data_block_number ==> #[trigger] final(self).direct_block_pointers[k]
                    == old(self).direct_block_pointers[k],
    {
        let descriptor_index = match self.get_last_allocated_data_block_number(fs) {
            None => 0,
            Some(last) => {
                let p = match self.read_data_block_pointer(last, fs) {
                    Some(p) => p,
                    None => return None,
                };
                match fs.get_descriptor_index_of_block_number(p) {
                    Some(g) => g,
                    None => return None,
                }
            },
        };
        let new_block_pointer = match fs.alloc_block_close_to(descriptor_index) {
            Some(p) => p,
            None => return None,
        };
        let ghost mid = *self;
        let r = self.write_data_block_pointer(data_block_number, new_block_pointer, fs);
        proof {
            if data_block_number <= 11 {
                assert forall|k: int| 0 <= k < 12 && k != data_block_number implies #[trigger] self.direct_block_pointers[k]
                    == old(self).direct_block_pointers[k] by {
                    assert(self.direct_block_pointers@[k] == mid.direct_block_pointers@[k]);
                }
                assert(self.direct_block_pointers@[data_block_number as int] == new_block_pointer);
            }
        }
        match r {
            Some(()) => Some(()),
            None => None,
        }
    }

    /// Writes `data` into the file from `offset` on, which must lie within the
    /// file; the number of bytes written. It writes one block per whole or
    /// started block of `data`, the first from `offset % inode_size` on, so
    /// that at most [`write_capacity`] bytes are written.
    pub fn write_bytes<D: IFile>(&self, offset: usize, data: &[u8], e2fs: &mut Ext2FS<D>) -> (r: Option<usize>)
        requires
            old(e2fs).wf(),
            old(e2fs).inode_size() > 0,
            offset + data@.len() <= usize::MAX,
        ensures
            final(e2fs).sb == old(e2fs).sb,
            final(e2fs).extended_sb == old(e2fs).extended_sb,
            final(e2fs).is_read_only() == old(e2fs).is_read_only(),
            offset + data@.len() > self.low32_size ==> r is None,
            offset + data@.len() <= self.low32_size && data@.len() == 0 ==> r == Some(0usize),
            old(e2fs).is_read_only() && data@.len() > 0 ==> r is None,
            r matches Some(n) ==> n == min(
                data@.len(),
                write_capacity(old(e2fs).block_size(), old(e2fs).inode_size(), offset as nat, data@.len()),
            ),
            r is Some && whole_direct_write(*self, old(e2fs).block_size(), old(e2fs).inode_size(), offset as nat, data@.len())
                ==> forall|k: nat|
                k < data@.len() / old(e2fs).block_size() ==> #[trigger] data_block(
                    final(e2fs).disk(),
                    old(e2fs).block_size(),
                    *self,
                    offset as nat / old(e2fs).block_size() + k,
                ) == Some(chunk(data@, old(e2fs).block_size(), k)),
    {
        if offset + data.len() > self.get_size() {
            return None;
        }
        proof {
            lemma_block_size_facts(e2fs.sb);
        }
        let bs = e2fs.get_block_size() as usize;
        let inode_size = e2fs.get_inode_size();
        let starting_block_addr = offset / bs;
        let offset_in_starting_block = offset % inode_size;
        let len = data.len();
        let extra_block: usize = if len % bs != 0 {
            1
        } else {
            0
        };
        assert(len / bs + 1 <= usize::MAX) by (nonlinear_arith)
            requires
                bs >= 2,
        ;
        let count = len / bs + extra_block;
        assert(len > 0 ==> count > 0) by (nonlinear_arith)
            requires
                count == len / bs + extra_block,
                extra_block == (if len % bs != 0 { 1usize } else { 0usize }),
                bs >= 1,
        ;
        assert(len == 0 ==> count == 0) by (nonlinear_arith)
            requires
                count == len / bs + extra_block,
                extra_block == (if len % bs != 0 { 1usize } else { 0usize }),
                bs >= 1,
        ;
        let mut bytes_written: usize = 0;
        let mut ind = offset_in_starting_block;
        let mut block_ind: usize = 0;
        let ghost gbs = bs as nat;
        let ghost first_room: nat = if offset_in_starting_block >= bs {
            0
        } else {
            (bs - offset_in_starting_block) as nat
        };
        let ghost whole = whole_direct_write(*self, gbs, inode_size as nat, offset as nat, len as nat);
        while block_ind < count
            invariant
                whole == whole_direct_write(*self, bs as nat, inode_size as nat, offset as nat, len as nat),
                offset_in_starting_block == offset % inode_size,
                whole ==> extra_block == 0 && bytes_written == block_ind * bs,
                whole ==> forall|k: nat|
                    k < block_ind ==> #[trigger] data_block(e2fs.disk(), bs as nat, *self, (starting_block_addr + k) as nat)
                        == Some(chunk(data@, bs as nat, k)),
                e2fs.wf(),
                e2fs.sb == old(e2fs).sb,
                e2fs.extended_sb == old(e2fs).extended_sb,
                e2fs.is_read_only() == old(e2fs).is_read_only(),
                bs == e2fs.block_size(),
                bs >= 1024,
                inode_size == e2fs.inode_size(),
                inode_size > 0,
                len == data@.len(),
                count == len / bs + extra_block,
                extra_block <= 1,
                len > 0 ==> count > 0,
                len == 0 ==> count == 0,
                block_ind > 0 ==> !old(e2fs).is_read_only(),
                offset + len <= usize::MAX,
                starting_block_addr == offset / bs,
                block_ind <= count,
                first_room == if offset_in_starting_block >= bs {
                    0
                } else {
                    (bs - offset_in_starting_block) as nat
                },
                ind == if block_ind == 0 {
                    offset_in_starting_block
                } else {
                    0
                },
                bytes_written <= len,
                bytes_written == min(
                    len as nat,
                    if block_ind == 0 {
                        0
                    } else {
                        first_room + ((block_ind - 1) * bs) as nat
                    },
                ),
            decreases count - block_ind,
        {
            assert(starting_block_addr + block_ind <= usize::MAX) by (nonlinear_arith)
                requires
                    starting_block_addr == offset / bs,
                    block_ind < len / bs + 1,
                    bs >= 1,
                    offset + len <= usize::MAX,
            ;
            let needs_read = (block_ind == count - 1 && extra_block == 1) || (block_ind == 0
                && offset_in_starting_block != 0);
            let mut v = if needs_read {
                match self.read_data_block(starting_block_addr + block_ind, e2fs) {
                    Some(b) => b,
                    None => return None,
                }
            } else {
                zero_block(bs)
            };
            assert(v@.len() == bs);
            let ghost start_written = bytes_written;
            let ghost start_ind = ind;
            while ind < v.len() && bytes_written < len
                invariant
                    v@.len() == bs,
                    forall|m: int| start_ind <= m < ind ==> v@[m] == data@[start_written + m - start_ind],
                    len == data@.len(),
                    start_written <= bytes_written <= len,
                    start_ind <= ind,
                    bytes_written - start_written == ind - start_ind,
                    start_ind < bs ==> ind <= bs,
                    start_ind >= bs ==> ind == start_ind,
                decreases len - bytes_written,
            {
                v[ind] = data[bytes_written];
                ind = ind + 1;
                bytes_written = bytes_written + 1;
            }
            proof {
                let room: nat = if start_ind >= bs {
                    0
                } else {
                    (bs - start_ind) as nat
                };
                assert(bytes_written == min(len as nat, (start_written + room) as nat));
                if block_ind == 0 {
                    assert(room == first_room);
                } else {
                    assert(first_room + ((block_ind - 1) * bs) as nat + bs == first_room + (block_ind * bs) as nat)
                        by (nonlinear_arith)
                        requires
                            block_ind >= 1,
                    ;
                }
            }
            proof {
                if whole {
                    assert(len / bs * bs == len) by (nonlinear_arith)
                        requires
                            len % bs == 0,
                            bs > 0,
                    ;
                    assert(block_ind * bs + bs <= len) by (nonlinear_arith)
                        requires
                            block_ind < count,
                            count == len / bs,
                            len / bs * bs == len,
                    ;
                    assert(ind == bs);
                    assert(v@ =~= chunk(data@, bs as nat, block_ind as nat));
                    assert(bytes_written == (block_ind + 1) * bs) by (nonlinear_arith)
                        requires
                            bytes_written == block_ind * bs + bs,
                    ;
                }
            }
            ind = 0;
            let ghost disk_before = e2fs.disk();
            match self.write_data_block(starting_block_addr + block_ind, v.as_slice(), e2fs) {
                Some(()) => {},
                None => return None,
            }
            proof {
                if whole {
                    let n = (starting_block_addr + block_ind) as nat;
                    let p = self.direct_block_pointers[n as int] as nat;
                    assert(n <= 11);
                    assert forall|k: nat| k < block_ind + 1 implies #[trigger] data_block(
                        e2fs.disk(),
                        bs as nat,
                        *self,
                        (starting_block_addr + k) as nat,
                    ) == Some(chunk(data@, bs as nat, k)) by {
                        if k < block_ind {
                            let q = self.direct_block_pointers[(starting_block_addr + k) as int] as nat;
                            assert(data_block(disk_before, bs as nat, *self, (starting_block_addr + k) as nat) == Some(
                                chunk(data@, bs as nat, k),
                            ));
                            assert(q != p);
                            lemma_other_block_kept(disk_before, e2fs.disk(), bs as nat, p, q);
                        }
                    }
                }
            }
            block_ind = block_ind + 1;
        }
        proof {
            if count == 0 {
            } else if offset_in_starting_block >= bs {
            } else {
                assert(first_room + ((count - 1) * bs) as nat == (count * bs - offset_in_starting_block) as nat)
                    by (nonlinear_arith)
                    requires
                        count >= 1,
                        first_room == bs - offset_in_starting_block,
                        offset_in_starting_block < bs,
                ;
            }
        }
        Some(bytes_written)
    }

    /// Frees the indirect blocks that point at no data any more: an empty
    /// singly indirect block, the empty singly indirect blocks at the end of
    /// the doubly indirect one (and it too once empty), and likewise under the
    /// triply indirect block, stopping at the first one that is not empty.
    pub fn shrink_data_structure_to_fit<D: IFile>(&mut self, fs: &mut Ext2FS<D>)
        requires
            old(fs).wf(),
        ensures
            final(fs).wf(),
            final(fs).sb == (Ext2SuperBlock { unallocated_blocks: final(fs).sb.unallocated_blocks, ..old(fs).sb }),
            final(fs).extended_sb == old(fs).extended_sb,
            final(fs).is_read_only() == old(fs).is_read_only(),
            *final(self) == (Ext2RawInode {
                singly_indirect_block_pointer: final(self).singly_indirect_block_pointer,
                doubly_indirect_block_pointer: final(self).doubly_indirect_block_pointer,
                triply_indirect_block_pointer: final(self).triply_indirect_block_pointer,
                ..*old(self)
            }),
            final(self).singly_indirect_block_pointer == old(self).singly_indirect_block_pointer
                || final(self).singly_indirect_block_pointer == 0,
            final(self).singly_indirect_block_pointer != old(self).singly_indirect_block_pointer ==> block_in_range(
                old(fs).disk(),
                old(fs).block_size(),
                old(self).singly_indirect_block_pointer as nat,
            ) && forall|k: int|
                0 <= k < old(fs).block_size() ==> #[trigger] block_at(
                    old(fs).disk(),
                    old(fs).block_size(),
                    old(self).singly_indirect_block_pointer as nat,
                )[k] == 0,
            final(self).doubly_indirect_block_pointer == old(self).doubly_indirect_block_pointer
                || final(self).doubly_indirect_block_pointer == 0,
            final(self).triply_indirect_block_pointer == old(self).triply_indirect_block_pointer
                || final(self).triply_indirect_block_pointer == 0,
    {
        proof {
            lemma_block_size_facts(fs.sb);
        }
        let pointers: usize = fs.get_block_size() as usize / 4;
        match fs.read_block(self.singly_indirect_block_pointer) {
            Some(singly_indirect_block) => {
                if all_zero(singly_indirect_block.as_slice()) {
                    let _ = fs.dealloc_block(self.singly_indirect_block_pointer);
                    self.singly_indirect_block_pointer = 0;
                }
            },
            None => {},
        }
        match fs.read_block(self.doubly_indirect_block_pointer) {
            Some(doubly_indirect_block) => {
                let mut doubly_indirect_block = doubly_indirect_block;
                let mut i: usize = pointers;
                while i > 0
                    invariant
                        fs.wf(),
                        fs.sb == (Ext2SuperBlock { unallocated_blocks: fs.sb.unallocated_blocks, ..old(fs).sb }),
                        fs.extended_sb == old(fs).extended_sb,
                        fs.is_read_only() == old(fs).is_read_only(),
                        pointers == fs.block_size() / 4,
                        doubly_indirect_block@.len() == fs.block_size(),
                        i <= pointers,
                    decreases i,
                {
                    i = i - 1;
                    let singly_indirect_block_pointer = match Self::read_value_from_u32_array_as_le_bytes(
                        doubly_indirect_block.as_slice(),
                        i,
                    ) {
                        Some(p) => p,
                        None => 0,
                    };
                    match fs.read_block(singly_indirect_block_pointer) {
                        Some(singly_indirect_block) => {
                            if all_zero(singly_indirect_block.as_slice()) {
                                let _ = fs.dealloc_block(singly_indirect_block_pointer);
                                let _ = Self::write_value_to_u32_array_as_le_bytes(&mut doubly_indirect_block, i, 0);
                            } else {
                                break;
                            }
                        },
                        None => {},
                    }
                }
                if all_zero(doubly_indirect_block.as_slice()) {
                    let _ = fs.dealloc_block(self.doubly_indirect_block_pointer);
                    self.doubly_indirect_block_pointer = 0;
                } else {
                    let _ = fs.write_block(self.doubly_indirect_block_pointer, doubly_indirect_block.as_slice());
                }
            },
            None => {},
        }
        match fs.read_block(self.triply_indirect_block_pointer) {
            Some(triply_indirect_block) => {
                let mut triply_indirect_block = triply_indirect_block;
                let mut stop = false;
                let mut i: usize = 0;
                while i < pointers && !stop
                    invariant
                        fs.wf(),
                        fs.sb == (Ext2SuperBlock { unallocated_blocks: fs.sb.unallocated_blocks, ..old(fs).sb }),
                        fs.extended_sb == old(fs).extended_sb,
                        fs.is_read_only() == old(fs).is_read_only(),
                        pointers == fs.block_size() / 4,
                        triply_indirect_block@.len() == fs.block_size(),
                        i <= pointers,
                    decreases pointers - i,
                {
                    let doubly_indirect_block_pointer = match Self::read_value_from_u32_array_as_le_bytes(
                        triply_indirect_block.as_slice(),
                        i,
                    ) {
                        Some(p) => p,
                        None => 0,
                    };
                    match fs.read_block(doubly_indirect_block_pointer) {
                        Some(doubly_indirect_block) => {
                            let mut doubly_indirect_block = doubly_indirect_block;
                            let mut j: usize = pointers;
                            while j > 0
                                invariant
                                    fs.wf(),
                                    fs.sb == (Ext2SuperBlock {
                                        unallocated_blocks: fs.sb.unallocated_blocks,
                                        ..old(fs).sb
                                    }),
                                    fs.extended_sb == old(fs).extended_sb,
                                    fs.is_read_only() == old(fs).is_read_only(),
                                    pointers == fs.block_size() / 4,
                                    doubly_indirect_block@.len() == fs.block_size(),
                                    j <= pointers,
                                decreases j,
                            {
                                j = j - 1;
                                let singly_indirect_block_pointer = match Self::read_value_from_u32_array_as_le_bytes(
                                    doubly_indirect_block.as_slice(),
                                    j,
                                ) {
                                    Some(p) => p,
                                    None => 0,
                                };
                                match fs.read_block(singly_indirect_block_pointer) {
                                    Some(singly_indirect_block) => {
                                        if all_zero(singly_indirect_block.as_slice()) {
                                            let _ = fs.dealloc_block(singly_indirect_block_pointer);
                                            let _ = Self::write_value_to_u32_array_as_le_bytes(
                                                &mut doubly_indirect_block,
                                                j,
                                                0,
                                            );
                                        } else {
                                            stop = true;
                                            break;
                                        }
                                    },
                                    None => {},
                                }
                            }
                            if !stop {
                                if all_zero(doubly_indirect_block.as_slice()) {
                                    let _ = fs.dealloc_block(doubly_indirect_block_pointer);
                                    let _ = Self::write_value_to_u32_array_as_le_bytes(&mut triply_indirect_block, i, 0);
                                } else {
                                    let _ = fs.write_block(doubly_indirect_block_pointer, doubly_indirect_block.as_slice());
                                }
                            }
                        },
                        None => {},
                    }
                    i = i + 1;
                }
                if all_zero(triply_indirect_block.as_slice()) {
                    let _ = fs.dealloc_block(self.triply_indirect_block_pointer);
                    self.triply_indirect_block_pointer = 0;
                } else {
                    let _ = fs.write_block(self.triply_indirect_block_pointer, triply_indirect_block.as_slice());
                }
            },
            None => {},
        }
    }

    /// Allocates the indirect blocks that a file of its size plus `nblocks`
    /// blocks goes through: the singly indirect block, then the doubly
    /// indirect one and singly indirect blocks under it, then the triply
    /// indirect one and doubly indirect blocks under it. `None` where an
    /// allocation, read or write fails or the blocks do not fit.
    pub fn grow_data_structure_by<D: IFile>(&mut self, nblocks: usize, fs: &mut Ext2FS<D>) -> (r: Option<()>)
        requires
            old(fs).wf(),
        ensures
            final(fs).wf(),
            final(fs).sb == (Ext2SuperBlock { unallocated_blocks: final(fs).sb.unallocated_blocks, ..old(fs).sb }),
            final(fs).extended_sb == old(fs).extended_sb,
            final(fs).is_read_only() == old(fs).is_read_only(),
            *final(self) == (Ext2RawInode {
                singly_indirect_block_pointer: final(self).singly_indirect_block_pointer,
                doubly_indirect_block_pointer: final(self).doubly_indirect_block_pointer,
                triply_indirect_block_pointer: final(self).triply_indirect_block_pointer,
                ..*old(self)
            }),
            old(self).singly_indirect_block_pointer != 0 ==> final(self).singly_indirect_block_pointer
                == old(self).singly_indirect_block_pointer,
            old(self).doubly_indirect_block_pointer != 0 ==> final(self).doubly_indirect_block_pointer
                == old(self).doubly_indirect_block_pointer,
            old(self).triply_indirect_block_pointer != 0 ==> final(self).triply_indirect_block_pointer
                == old(self).triply_indirect_block_pointer,
            nblocks > isize::MAX ==> r is None && *final(self) == *old(self) && *final(fs) == *old(fs),
            nblocks <= isize::MAX && ceil_div(old(self).low32_size as nat, old(fs).block_size()) + nblocks <= 12
                ==> r is Some && *final(self) == *old(self) && *final(fs) == *old(fs),
    {
        proof {
            lemma_block_size_facts(fs.sb);
        }
        let bs = fs.get_block_size() as usize;
        if nblocks > isize::MAX as usize {
            return None;
        }
        let size = self.get_size();
        let mut new_block_size: i128 = (size / bs) as i128 + if size % bs != 0 {
            1
        } else {
            0
        } + nblocks as i128;
        new_block_size = new_block_size - 12;
        if new_block_size <= 0 {
            return Some(());
        }
        assert(!(nblocks > isize::MAX || ceil_div(old(self).low32_size as nat, old(fs).block_size()) + nblocks <= 12));
        let descriptor_index = match self.get_last_allocated_data_block_number(fs) {
            None => 0,
            Some(last) => {
                let p = match self.read_data_block_pointer(last, fs) {
                    Some(p) => p,
                    None => return None,
                };
                match fs.get_descriptor_index_of_block_number(p) {
                    Some(g) => g,
                    None => return None,
                }
            },
        };
        let pointers: usize = bs / 4;
        if self.singly_indirect_block_pointer == 0 {
            self.singly_indirect_block_pointer = match fs.alloc_block_close_to(descriptor_index) {
                Some(p) => p,
                None => return None,
            };
        }
        new_block_size = new_block_size - pointers as i128;
        if new_block_size <= 0 {
            return Some(());
        }
        if self.doubly_indirect_block_pointer == 0 {
            self.doubly_indirect_block_pointer = match fs.alloc_block_close_to(descriptor_index) {
                Some(p) => p,
                None => return None,
            };
        }
        let mut doubly_indirect_block = match fs.read_block(self.doubly_indirect_block_pointer) {
            Some(b) => b,
            None => return None,
        };
        let mut ind: usize = 0;
        while new_block_size > 0 && ind < pointers
            invariant
                !(nblocks > isize::MAX || ceil_div(old(self).low32_size as nat, old(fs).block_size()) + nblocks <= 12),
                fs.wf(),
                fs.sb == (Ext2SuperBlock { unallocated_blocks: fs.sb.unallocated_blocks, ..old(fs).sb }),
                fs.extended_sb == old(fs).extended_sb,
                fs.is_read_only() == old(fs).is_read_only(),
                pointers == fs.block_size() / 4,
                doubly_indirect_block@.len() == fs.block_size(),
                ind <= pointers,
                new_block_size <= i128::MAX,
                *self == (Ext2RawInode {
                    singly_indirect_block_pointer: self.singly_indirect_block_pointer,
                    doubly_indirect_block_pointer: self.doubly_indirect_block_pointer,
                    triply_indirect_block_pointer: self.triply_indirect_block_pointer,
                    ..*old(self)
                }),
                old(self).singly_indirect_block_pointer != 0 ==> self.singly_indirect_block_pointer
                    == old(self).singly_indirect_block_pointer,
                old(self).doubly_indirect_block_pointer != 0 ==> self.doubly_indirect_block_pointer
                    == old(self).doubly_indirect_block_pointer,
                old(self).triply_indirect_block_pointer != 0 ==> self.triply_indirect_block_pointer
                    == old(self).triply_indirect_block_pointer,
            decreases pointers - ind,
        {
            let p = match fs.alloc_block_close_to(descriptor_index) {
                Some(p) => p,
                None => return None,
            };
            let _ = Self::write_value_to_u32_array_as_le_bytes(&mut doubly_indirect_block, ind, p);
            new_block_size = new_block_size - pointers as i128;
            ind = ind + 1;
        }
        match fs.write_block(self.doubly_indirect_block_pointer, doubly_indirect_block.as_slice()) {
            Some(()) => {},
            None => return None,
        }
        if new_block_size <= 0 {
            return Some(());
        }
        if self.triply_indirect_block_pointer == 0 {
            self.triply_indirect_block_pointer = match fs.alloc_block_close_to(descriptor_index) {
                Some(p) => p,
                None => return None,
            };
        }
        let mut triply_indirect_block = match fs.read_block(self.triply_indirect_block_pointer) {
            Some(b) => b,
            None => return None,
        };
        let mut ind: usize = 0;
        while new_block_size > 0 && ind < pointers
            invariant
                !(nblocks > isize::MAX || ceil_div(old(self).low32_size as nat, old(fs).block_size()) + nblocks <= 12),
                fs.wf(),
                fs.sb == (Ext2SuperBlock { unallocated_blocks: fs.sb.unallocated_blocks, ..old(fs).sb }),
                fs.extended_sb == old(fs).extended_sb,
                fs.is_read_only() == old(fs).is_read_only(),
                pointers == fs.block_size() / 4,
                triply_indirect_block@.len() == fs.block_size(),
                ind <= pointers,
                new_block_size <= i128::MAX,
                *self == (Ext2RawInode {
                    singly_indirect_block_pointer: self.singly_indirect_block_pointer,
                    doubly_indirect_block_pointer: self.doubly_indirect_block_pointer,
                    triply_indirect_block_pointer: self.triply_indirect_block_pointer,
                    ..*old(self)
                }),
                old(self).singly_indirect_block_pointer != 0 ==> self.singly_indirect_block_pointer
                    == old(self).singly_indirect_block_pointer,
                old(self).doubly_indirect_block_pointer != 0 ==> self.doubly_indirect_block_pointer
                    == old(self).doubly_indirect_block_pointer,
                old(self).triply_indirect_block_pointer != 0 ==> self.triply_indirect_block_pointer
                    == old(self).triply_indirect_block_pointer,
            decreases pointers - ind,
        {
            let doubly_indirect_block_pointer = match fs.alloc_block_close_to(descriptor_index) {
                Some(p) => p,
                None => return None,
            };
            let _ = Self::write_value_to_u32_array_as_le_bytes(
                &mut triply_indirect_block,
                ind,
                doubly_indirect_block_pointer,
            );
            let mut doubly_indirect_block = match fs.read_block(self.doubly_indirect_block_pointer) {
                Some(b) => b,
                None => return None,
            };
            let mut j_ind: usize = 0;
            while new_block_size > 0 && j_ind < pointers
                invariant
                    !(nblocks > isize::MAX || ceil_div(old(self).low32_size as nat, old(fs).block_size()) + nblocks <= 12),
                    fs.wf(),
                    fs.sb == (Ext2SuperBlock { unallocated_blocks: fs.sb.unallocated_blocks, ..old(fs).sb }),
                    fs.extended_sb == old(fs).extended_sb,
                    fs.is_read_only() == old(fs).is_read_only(),
                    pointers == fs.block_size() / 4,
                    doubly_indirect_block@.len() == fs.block_size(),
                    j_ind <= pointers,
                    new_block_size <= i128::MAX,
                    *self == (Ext2RawInode {
                        singly_indirect_block_pointer: self.singly_indirect_block_pointer,
                        doubly_indirect_block_pointer: self.doubly_indirect_block_pointer,
                        triply_indirect_block_pointer: self.triply_indirect_block_pointer,
                        ..*old(self)
                    }),
                    old(self).singly_indirect_block_pointer != 0 ==> self.singly_indirect_block_pointer
                        == old(self).singly_indirect_block_pointer,
                    old(self).doubly_indirect_block_pointer != 0 ==> self.doubly_indirect_block_pointer
                        == old(self).doubly_indirect_block_pointer,
                    old(self).triply_indirect_block_pointer != 0 ==> self.triply_indirect_block_pointer
                        == old(self).triply_indirect_block_pointer,
                decreases pointers - j_ind,
            {
                let p = match fs.alloc_block_close_to(descriptor_index) {
                    Some(p) => p,
                    None => return None,
                };
                let _ = Self::write_value_to_u32_array_as_le_bytes(&mut doubly_indirect_block, j_ind, p);
                new_block_size = new_block_size - pointers as i128;
                j_ind = j_ind + 1;
            }
            match fs.write_block(self.doubly_indirect_block_pointer, doubly_indirect_block.as_slice()) {
                Some(()) => {},
                None => return None,
            }
            ind = ind + 1;
        }
        match fs.write_block(self.triply_indirect_block_pointer, triply_indirect_block.as_slice()) {
            Some(()) => {},
            None => return None,
        }
        if new_block_size <= 0 {
            return Some(());
        }
        None
    }

    /// Shrinks the file by `nbytes`: frees the data blocks that no byte of
    /// the file is left in, then the indirect blocks left empty, and sets the
    /// size. `None` where `nbytes` is more than the size.
    pub fn shrink_by<D: IFile>(&mut self, nbytes: usize, e2fs: &mut Ext2FS<D>) -> (r: Option<()>)
        requires
            old(e2fs).wf(),
        ensures
            final(e2fs).wf(),
            final(e2fs).sb == (Ext2SuperBlock { unallocated_blocks: final(e2fs).sb.unallocated_blocks, ..old(e2fs).sb }),
            final(e2fs).extended_sb == old(e2fs).extended_sb,
            final(e2fs).is_read_only() == old(e2fs).is_read_only(),
            nbytes > old(self).low32_size ==> r is None && *final(self) == *old(self) && *final(e2fs) == *old(e2fs),
            nbytes == 0 ==> r is Some && *final(self) == *old(self) && *final(e2fs) == *old(e2fs),
            r is Some ==> final(self).low32_size == old(self).low32_size - nbytes,
    {
        if nbytes > self.get_size() {
            return None;
        }
        if nbytes == 0 {
            return Some(());
        }
        proof {
            lemma_block_size_facts(e2fs.sb);
        }
        let bs = e2fs.get_block_size() as usize;
        let size = self.get_size();
        let mut blocks_to_remove: usize = 0;
        let bytes_used_in_last_nonempty_block = if size % bs == 0 {
            bs
        } else {
            size % bs
        };
        if nbytes >= bytes_used_in_last_nonempty_block {
            blocks_to_remove = 1 + (nbytes - bytes_used_in_last_nonempty_block) / bs;
        }
        let last_allocated_data_block_number = (size - 1) / bs;
        assert(blocks_to_remove <= last_allocated_data_block_number + 1) by (nonlinear_arith)
            requires
                size >= nbytes,
                size >= 1,
                bs > 0,
                bytes_used_in_last_nonempty_block == if size % bs == 0 {
                    bs
                } else {
                    size % bs
                },
                nbytes >= bytes_used_in_last_nonempty_block ==> blocks_to_remove == 1 + ((nbytes
                    - bytes_used_in_last_nonempty_block) as int) / (bs as int),
                nbytes < bytes_used_in_last_nonempty_block ==> blocks_to_remove == 0,
                last_allocated_data_block_number == ((size - 1) as int) / (bs as int),
        ;
        let mut i: usize = 0;
        while i < blocks_to_remove
            invariant
                e2fs.wf(),
                e2fs.sb == (Ext2SuperBlock { unallocated_blocks: e2fs.sb.unallocated_blocks, ..old(e2fs).sb }),
                e2fs.extended_sb == old(e2fs).extended_sb,
                e2fs.is_read_only() == old(e2fs).is_read_only(),
                self.low32_size == old(self).low32_size,
                nbytes <= old(self).low32_size,
                nbytes > 0,
                i <= blocks_to_remove,
                blocks_to_remove <= last_allocated_data_block_number + 1,
            decreases blocks_to_remove - i,
        {
            match self.dealloc_data_block(last_allocated_data_block_number - i, e2fs) {
                Some(()) => {},
                None => return None,
            }
            i = i + 1;
        }
        self.shrink_data_structure_to_fit(e2fs);
        self.set_size(size - nbytes);
        Some(())
    }

    /// Grows the file by `nbytes`: allocates the data blocks that the new
    /// bytes need, and the indirect blocks to reach them, and sets the size.
    pub fn grow_by<D: IFile>(&mut self, nbytes: usize, e2fs: &mut Ext2FS<D>) -> (r: Option<()>)
        requires
            old(e2fs).wf(),
            old(self).low32_size + nbytes <= usize::MAX,
        ensures
            final(e2fs).wf(),
            final(e2fs).sb == (Ext2SuperBlock { unallocated_blocks: final(e2fs).sb.unallocated_blocks, ..old(e2fs).sb }),
            final(e2fs).extended_sb == old(e2fs).extended_sb,
            final(e2fs).is_read_only() == old(e2fs).is_read_only(),
            nbytes == 0 ==> r is Some && *final(self) == *old(self),
            r is Some ==> final(self).low32_size == (old(self).low32_size + nbytes) as u32,
            r is Some && nbytes > 0 ==> *final(self) == (Ext2RawInode {
                low32_size: (old(self).low32_size + nbytes) as u32,
                disk_sectors_used: (((old(self).low32_size + nbytes) as u32) / 512 + if ((old(self).low32_size
                    + nbytes) as u32) % 512 != 0 {
                    1u32
                } else {
                    0u32
                }) as u32,
                direct_block_pointers: final(self).direct_block_pointers,
                singly_indirect_block_pointer: final(self).singly_indirect_block_pointer,
                doubly_indirect_block_pointer: final(self).doubly_indirect_block_pointer,
                triply_indirect_block_pointer: final(self).triply_indirect_block_pointer,
                ..*old(self)
            }),
            ({
                let bs = old(e2fs).block_size();
                let used = old(self).low32_size as nat % bs;
                nbytes > 0 && used != 0 && nbytes <= bs - used && ceil_div(old(self).low32_size as nat, bs) <= 12
                    ==> r is Some && *final(e2fs) == *old(e2fs)
            }),
    {
        if nbytes == 0 {
            return Some(());
        }
        proof {
            lemma_block_size_facts(e2fs.sb);
        }
        let bs = e2fs.get_block_size() as usize;
        let size = self.get_size();
        let mut blocks_to_add: usize = 0;
        let mut bytes_to_add = nbytes;
        let bytes_used_in_last_block = size % bs;
        if bytes_used_in_last_block == 0 {
            match self.grow_data_structure_by(1, e2fs) {
                Some(()) => {},
                None => return None,
            }
            let next = match self.get_last_allocated_data_block_number(e2fs) {
                Some(last_block_n) => last_block_n + 1,
                None => 0,
            };
            match self.alloc_data_block(next, e2fs) {
                Some(()) => {},
                None => return None,
            }
        }
        let bytes_available_in_last_block = bs - bytes_used_in_last_block;
        if bytes_to_add > bytes_available_in_last_block {
            bytes_to_add = bytes_to_add - bytes_available_in_last_block;
            blocks_to_add = blocks_to_add + bytes_to_add / bs + if bytes_to_add % bs != 0 {
                1
            } else {
                0
            };
        }
        match self.grow_data_structure_by(blocks_to_add, e2fs) {
            Some(()) => {},
            None => return None,
        }
        let last_allocated_data_block_number = match self.get_last_allocated_data_block_number(e2fs) {
            Some(l) => l,
            None => 0,
        };
        assert(last_allocated_data_block_number < 0x40_0000) by {
            if self.low32_size > 0 {
                let x = (self.low32_size - 1) as int;
                vstd::arithmetic::div_mod::lemma_div_is_ordered_by_denominator(x, 1024, bs as int);
                assert(x / 1024 < 0x40_0000);
            }
        }
        assert(blocks_to_add <= nbytes / 1024 + 1) by (nonlinear_arith)
            requires
                bs >= 1024,
                bytes_to_add <= nbytes,
                blocks_to_add <= bytes_to_add / bs + 1,
        ;
        let ghost easy = {
            let gbs = old(e2fs).block_size();
            let used = old(self).low32_size as nat % gbs;
            nbytes > 0 && used != 0 && nbytes <= gbs - used && ceil_div(old(self).low32_size as nat, gbs) <= 12
        };
        assert(easy ==> blocks_to_add == 0 && *e2fs == *old(e2fs));
        let mut i: usize = 1;
        while i <= blocks_to_add
            invariant
                e2fs.wf(),
                e2fs.sb == (Ext2SuperBlock { unallocated_blocks: e2fs.sb.unallocated_blocks, ..old(e2fs).sb }),
                e2fs.extended_sb == old(e2fs).extended_sb,
                e2fs.is_read_only() == old(e2fs).is_read_only(),
                self.low32_size == old(self).low32_size,
                *self == (Ext2RawInode {
                    direct_block_pointers: self.direct_block_pointers,
                    singly_indirect_block_pointer: self.singly_indirect_block_pointer,
                    doubly_indirect_block_pointer: self.doubly_indirect_block_pointer,
                    triply_indirect_block_pointer: self.triply_indirect_block_pointer,
                    ..*old(self)
                }),
                easy == (nbytes > 0 && old(self).low32_size as nat % old(e2fs).block_size() != 0 && nbytes
                    <= old(e2fs).block_size() - old(self).low32_size as nat % old(e2fs).block_size() && ceil_div(
                    old(self).low32_size as nat,
                    old(e2fs).block_size(),
                ) <= 12),
                easy ==> blocks_to_add == 0 && *e2fs == *old(e2fs),
                nbytes > 0,
                1 <= i,
                blocks_to_add <= nbytes / 1024 + 1,
                last_allocated_data_block_number < 0x40_0000,
            decreases blocks_to_add + 1 - i,
        {
            match self.alloc_data_block(last_allocated_data_block_number + i, e2fs) {
                Some(()) => {},
                None => return None,
            }
            if i == blocks_to_add {
                break;
            }
            i = i + 1;
        }
        self.set_size(size + nbytes);
        Some(())
    }

    /// Changes the size of the file to `new_size`, shrinking or growing it.
    pub fn resize<D: IFile>(&mut self, new_size: usize, e2fs: &mut Ext2FS<D>) -> (r: Option<()>)
        requires
            old(e2fs).wf(),
        ensures
            final(e2fs).wf(),
            final(e2fs).sb == (Ext2SuperBlock { unallocated_blocks: final(e2fs).sb.unallocated_blocks, ..old(e2fs).sb }),
            final(e2fs).extended_sb == old(e2fs).extended_sb,
            final(e2fs).is_read_only() == old(e2fs).is_read_only(),
            new_size == old(self).low32_size ==> r is Some && *final(self) == *old(self) && *final(e2fs) == *old(e2fs),
            r is Some ==> final(self).low32_size == new_size as u32,
    {
        if new_size == self.get_size() {
            return Some(());
        }
        if new_size < self.get_size() {
            self.shrink_by(self.get_size() - new_size, e2fs)
        } else {
            self.grow_by(new_size - self.get_size(), e2fs)
        }
    }

    /// The `len` bytes of the file from `offset` on. Reading goes through the
    /// block of `offset`, then one block per whole or started block of `len`,
    /// and cuts the result to `len` bytes (see [`read_bytes_result`]).
    pub fn read_bytes<D: IFile>(&self, offset: usize, len: usize, e2fs: &Ext2FS<D>) -> (r: Option<Vec<u8>>)
        requires
            e2fs.wf(),
            offset + len <= usize::MAX,
        ensures
            offset + len > self.low32_size ==> r is None,
            r matches Some(v) ==> {
                let bs = e2fs.block_size();
                &&& blocks_readable(e2fs.disk(), bs, *self, offset as nat / bs, blocks_to_read(bs, len as nat))
                &&& v@ == read_bytes_result(e2fs.disk(), bs, *self, offset as nat, len as nat)
                &&& offset as nat % bs == 0 ==> v@.len() == len
            },
    {
        if offset + len > self.get_size() {
            return None;
        }
        proof {
            lemma_block_size_facts(e2fs.sb);
        }
        let bs = e2fs.get_block_size() as usize;
        let ghost gbs = e2fs.block_size();
        let ghost disk = e2fs.disk();
        let starting_block_index = offset / bs;
        let starting_block_offset = offset % bs;
        let mut res: Vec<u8> = Vec::new();
        let first_block = match self.read_data_block(starting_block_index, e2fs) {
            Some(b) => b,
            None => return None,
        };
        let mut k: usize = starting_block_offset;
        while k < first_block.len()
            invariant
                starting_block_offset <= k <= first_block@.len(),
                res@ == first_block@.subrange(starting_block_offset as int, k as int),
            decreases first_block@.len() - k,
        {
            res.push(first_block[k]);
            assert(res@ =~= first_block@.subrange(starting_block_offset as int, k + 1));
            k = k + 1;
        }
        let extra_block: usize = if len % bs != 0 {
            1
        } else {
            0
        };
        assert(len / bs + 1 <= usize::MAX) by (nonlinear_arith)
            requires
                bs >= 2,
        ;
        let count = len / bs + extra_block;
        let ghost total = blocks_to_read(gbs, len as nat);
        assert((starting_block_index as nat + 1 - 1) as nat == starting_block_index as nat);
        assert(first_block@.len() == bs);
        assert(res@ =~= first_block@.subrange(starting_block_offset as int, bs as int));
        assert(blocks_from(disk, gbs, *self, starting_block_index as nat, 0) =~= Seq::<u8>::empty());
        assert(blocks_from(disk, gbs, *self, starting_block_index as nat, 1) =~= first_block@);
        assert(data_block(disk, gbs, *self, starting_block_index as nat + 0) is Some);
        assert(blocks_readable(disk, gbs, *self, starting_block_index as nat, 1));
        let mut block_ind: usize = 1;
        while block_ind < count
            invariant
                e2fs.wf(),
                gbs == e2fs.block_size(),
                disk == e2fs.disk(),
                bs == gbs,
                starting_block_offset < bs,
                first_block@.len() == bs,
                starting_block_index == offset / bs,
                offset + len <= usize::MAX,
                1 <= block_ind,
                count == len / bs + extra_block,
                extra_block <= 1,
                block_ind <= total,
                total == if count == 0 { 1 } else { count },
                blocks_readable(disk, gbs, *self, starting_block_index as nat, block_ind as nat),
                res@ == blocks_from(disk, gbs, *self, starting_block_index as nat, block_ind as nat).subrange(
                    starting_block_offset as int,
                    (block_ind * bs) as int,
                ),
            decreases count - block_ind,
        {
            assert(starting_block_index + block_ind <= usize::MAX) by (nonlinear_arith)
                requires
                    starting_block_index == offset / bs,
                    block_ind < len / bs + 1,
                    bs >= 1,
                    offset + len <= usize::MAX,
            ;
            let block = match self.read_data_block(starting_block_index + block_ind, e2fs) {
                Some(b) => b,
                None => return None,
            };
            let ghost before = res@;
            let mut j: usize = 0;
            while j < block.len()
                invariant
                    j <= block@.len(),
                    res@ == before + block@.subrange(0, j as int),
                decreases block@.len() - j,
            {
                res.push(block[j]);
                assert(res@ =~= before + block@.subrange(0, j + 1));
                j = j + 1;
            }
            proof {
                assert(block@.subrange(0, j as int) =~= block@);
                assert(block@.len() == bs);
                let s = starting_block_index as nat;
                assert((s + (block_ind + 1) - 1) as nat == starting_block_index + block_ind);
                let all = blocks_from(disk, gbs, *self, s, (block_ind + 1) as nat);
                let prev = blocks_from(disk, gbs, *self, s, block_ind as nat);
                assert(all == prev + block@);
                assert forall|kk: nat| kk < block_ind + 1 implies #[trigger] data_block(disk, gbs, *self, s + kk) is Some by {
                    if kk < block_ind {
                    } else {
                        assert(s + kk == starting_block_index + block_ind);
                    }
                }
                lemma_blocks_from_len(disk, gbs, *self, s, block_ind as nat);
                assert(bs <= block_ind * bs && (block_ind + 1) * bs == block_ind * bs + bs) by (nonlinear_arith)
                    requires
                        block_ind >= 1,
                ;
                assert(res@ =~= all.subrange(starting_block_offset as int, ((block_ind + 1) * bs) as int));
            }
            block_ind = block_ind + 1;
        }
        proof {
            lemma_blocks_from_len(disk, gbs, *self, starting_block_index as nat, total);
            assert(block_ind == total);
        }
        let ghost full = res@;
        while res.len() > len
            invariant
                res@ == full.take(res@.len() as int),
                res@.len() <= full.len(),
                full.len() > len ==> res@.len() >= len,
                full.len() <= len ==> res@ == full,
            decreases res@.len(),
        {
            res.pop();
        }
        proof {
            let all = blocks_from(disk, gbs, *self, starting_block_index as nat, total);
            assert(full =~= all.subrange(starting_block_offset as int, all.len() as int));
            if full.len() > len {
                assert(res@ =~= full.take(len as int));
            }
            if starting_block_offset == 0 {
                lemma_blocks_to_read_cover(gbs, len as nat);
            }
        }
        Some(res)
    }
}

/// The blocks read for `len` bytes hold at least `len` bytes.
proof fn lemma_blocks_to_read_cover(bs: nat, len: nat)
    requires
        bs > 0,
    ensures
        blocks_to_read(bs, len) * bs >= len,
{
    let q = len / bs;
    let e: nat = if len % bs != 0 { 1 } else { 0 };
    assert(q * bs + len % bs == len) by (nonlinear_arith)
        requires
            bs > 0,
            q == len / bs,
    ;
    if len % bs != 0 {
        assert((q + 1) * bs == q * bs + bs) by (nonlinear_arith);
    }
    assert((q + e) * bs >= len);
    if q + e == 0 {
        assert(len == 0) by (nonlinear_arith)
            requires
                (q + e) * bs >= len,
                q + e == 0,
        ;
    }
}

/// Readable blocks, one after the other, take a block's size each.
proof fn lemma_blocks_from_len(disk: Seq<u8>, bs: nat, inode: Ext2RawInode, start: nat, count: nat)
    requires
        blocks_readable(disk, bs, inode, start, count),
    ensures
        blocks_from(disk, bs, inode, start, count).len() == count * bs,
    decreases count,
{
    if count > 0 {
        assert(blocks_readable(disk, bs, inode, start, (count - 1) as nat)) by {
            assert forall|k: nat| k < count - 1 implies #[trigger] data_block(disk, bs, inode, start + k) is Some by {
                assert(data_block(disk, bs, inode, start + k) is Some);
            }
        }
        lemma_blocks_from_len(disk, bs, inode, start, (count - 1) as nat);
        assert(data_block(disk, bs, inode, start + ((count - 1) as nat)) is Some);
        assert(start + ((count - 1) as nat) == (start + count - 1) as nat);
        let b = data_block(disk, bs, inode, (start + count - 1) as nat);
        assert(b.unwrap().len() == bs);
        let prev = blocks_from(disk, bs, inode, start, (count - 1) as nat);
        assert(blocks_from(disk, bs, inode, start, count) == prev + b.unwrap());
        assert(((count - 1) as nat) * bs + bs == count * bs) by (nonlinear_arith)
            requires
                count > 0,
        ;
    } else {
        assert(count * bs == 0) by (nonlinear_arith)
            requires
                count == 0,
        ;
    }
}

/// A block of zeros.
fn zero_block(n: usize) -> (r: Vec<u8>)
    ensures
        r@ == Seq::new(n as nat, |_i: int| 0u8),
{
    let mut r: Vec<u8> = Vec::new();
    let mut k: usize = 0;
    while k < n
        invariant
            k <= n,
            r@ == Seq::new(k as nat, |_i: int| 0u8),
        decreases n - k,
    {
        r.push(0);
        assert(r@ =~= Seq::new((k + 1) as nat, |_i: int| 0u8));
        k = k + 1;
    }
    r
}

/// A block pointer reads back as it was written: where `write_data_block_pointer`
/// pointed data block `n` at `pointer` (its ensures for `Some`: a direct
/// pointer updated in the inode, or the word at the block's slot in the
/// indirect blocks of `disk0` set in `disk1`), and the chain of indirect
/// blocks that leads to the slot is the same in `disk1`, the pointer to
/// data block `n` is `pointer`, which is what `read_data_block_pointer` then
/// gives.
pub proof fn lemma_pointer_read_after_write(
    disk0: Seq<u8>,
    disk1: Seq<u8>,
    bs: nat,
    ino0: Ext2RawInode,
    ino1: Ext2RawInode,
    n: nat,
    pointer: u32,
)
    requires
        n <= 11 ==> ino1.direct_block_pointers@ == ino0.direct_block_pointers@.update(n as int, pointer),
        n > 11 ==> ino1 == ino0 && (pointer_slot(disk0, bs, ino0, n) matches Some((b, i)) && block_word(
            disk1,
            bs,
            b,
            i,
        ) == Some(pointer)),
        n > 11 ==> pointer_slot(disk1, bs, ino0, n) == pointer_slot(disk0, bs, ino0, n),
    ensures
        data_block_pointer(disk1, bs, ino1, n) == Some(pointer),
{
}

/// Whether every byte of `v` is 0.
fn all_zero(v: &[u8]) -> (r: bool)
    ensures
        r == forall|i: int| 0 <= i < v@.len() ==> v@[i] == 0,
{
    let mut i: usize = 0;
    while i < v.len()
        invariant
            i <= v@.len(),
            forall|k: int| 0 <= k < i ==> v@[k] == 0,
        decreases v@.len() - i,
    {
        if v[i] != 0 {
            return false;
        }
        i = i + 1;
    }
    true
}

} // verus!
