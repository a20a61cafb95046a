//! An ext2 file system on a device: its superblocks, block group descriptors,
//! blocks and inodes, and the allocation of blocks and inodes in the bitmaps
//! of the block groups.
use crate::x86_kernel::ext2::record::{decode_record, encode_record, widths};
use crate::x86_kernel::ext2::structs::{
    Ext2BlockGroupDescriptor, Ext2ExtendedSuperblock, Ext2RawInode, Ext2SuperBlock,
};
use crate::x86_kernel::vfs::IFile;
use vstd::arithmetic::power2::{lemma2_to64, pow2};
use vstd::bits::{lemma_u32_pow2_no_overflow, lemma_u32_shl_is_mul};
use vstd::prelude::*;

verus! {

/// `a / b`, rounded up.
pub open spec fn ceil_div(a: nat, b: nat) -> nat {
    if a % b != 0 {
        a / b + 1
    } else {
        a / b
    }
}

/// The size of a block of the file system that `sb` describes.
pub open spec fn block_size_of(sb: Ext2SuperBlock) -> nat {
    pow2((sb.block_size_log2_minus_10 + 10) as nat)
}

/// The number of block groups, counted from the blocks.
pub open spec fn block_group_count(sb: Ext2SuperBlock) -> nat {
    ceil_div(sb.max_no_of_blocks as nat, sb.blocks_per_block_group as nat)
}

/// The number of block groups, counted from the inodes.
pub open spec fn block_group_count_by_inodes(sb: Ext2SuperBlock) -> nat {
    ceil_div(sb.max_no_of_inodes as nat, sb.inodes_per_block_group as nat)
}

/// The blocks before the first block group: those of the boot area and the
/// superblock (the first 2048 bytes), then those of the descriptor table.
pub open spec fn special_block_count(sb: Ext2SuperBlock) -> nat {
    ceil_div(2048nat, block_size_of(sb)) + ceil_div(32 * block_group_count(sb), block_size_of(sb))
}

/// Where the block group descriptor table starts: the block that holds byte 2048.
pub open spec fn descriptor_table_addr(sb: Ext2SuperBlock) -> nat {
    (2048nat / block_size_of(sb)) * block_size_of(sb)
}

/// Where the descriptor of block group `g` is.
pub open spec fn descriptor_addr(sb: Ext2SuperBlock, g: nat) -> nat {
    descriptor_table_addr(sb) + 32 * g
}

/// Whether the descriptor of block group `g` lies within `disk` and a `u32` address.
pub open spec fn descriptor_readable(disk: Seq<u8>, sb: Ext2SuperBlock, g: nat) -> bool {
    descriptor_addr(sb, g) <= u32::MAX && descriptor_addr(sb, g) + 32 <= disk.len()
}

/// The fields of the descriptor of block group `g` on `disk`.
pub open spec fn stored_descriptor(disk: Seq<u8>, sb: Ext2SuperBlock, g: nat) -> Seq<nat> {
    decode_record(
        disk.subrange(descriptor_addr(sb, g) as int, descriptor_addr(sb, g) + 32int),
        widths(Ext2BlockGroupDescriptor::field_widths()),
    )
}

/// Whether block `n` (not 0, which marks no block) lies within `disk` and
/// starts at a `u32` address.
pub open spec fn block_in_range(disk: Seq<u8>, bs: nat, n: nat) -> bool {
    n != 0 && n * bs <= u32::MAX && n * bs + bs <= disk.len()
}

/// The bytes of block `n`.
pub open spec fn block_at(disk: Seq<u8>, bs: nat, n: nat) -> Seq<u8> {
    disk.subrange((n * bs) as int, (n * bs + bs) as int)
}

/// Whether bit `j` of the bitmap `bm` is set.
pub open spec fn bit(bm: Seq<u8>, j: nat) -> bool {
    (bm[(j / 8) as int] >> ((j % 8) as u8)) & 1 == 1
}

/// Whether `k` is the first clear bit of the bitmap `bm`.
pub open spec fn first_clear_bit(bm: Seq<u8>, k: nat) -> bool {
    &&& k < 8 * bm.len()
    &&& !bit(bm, k)
    &&& forall|j: nat| j < k ==> #[trigger] bit(bm, j)
}

/// The required features that are all known and none of them unsupported:
/// compression, journal replay and a journal device.
pub open spec fn required_features_supported(f: u32) -> bool {
    f & 0xF == f && f & 0x1 == 0 && f & 0x4 == 0 && f & 0x8 == 0
}

/// The write-required features that are all known and not the directory
/// binary tree.
pub open spec fn write_features_supported(f: u32) -> bool {
    f & 0x7 == f && f & 0x4 == 0
}

/// `new` is `old` but for its bytes from `lo` up to `hi`.
pub open spec fn changed_within(old: Seq<u8>, new: Seq<u8>, lo: int, hi: int) -> bool {
    &&& new.len() == old.len()
    &&& forall|i: int| 0 <= i < old.len() && !(lo <= i < hi) ==> #[trigger] new[i] == old[i]
}

/// The `alen` bytes from `a` share none with the `blen` bytes from `b`.
pub open spec fn apart(a: int, alen: int, b: int, blen: int) -> bool {
    a + alen <= b || b + blen <= a
}

/// `new` is `old` with the first `m` bytes of `data` written from `addr` on.
pub open spec fn written_upto(old: Seq<u8>, new: Seq<u8>, addr: int, data: Seq<u8>, m: int) -> bool {
    &&& 0 <= m <= data.len()
    &&& forall|i: int| 0 <= i < old.len() ==> #[trigger] new[i] == if addr <= i < addr + m { data[i - addr] } else { old[i] }
}

/// `new` is `old` with some first bytes of `data` written from `addr` on:
/// what a write leaves where it may have stopped part way.
pub open spec fn prefix_written(old: Seq<u8>, new: Seq<u8>, addr: int, data: Seq<u8>) -> bool {
    &&& new.len() == old.len()
    &&& exists|m: int| #[trigger] written_upto(old, new, addr, data, m)
}

proof fn lemma_prefix_written(old: Seq<u8>, new: Seq<u8>, addr: int, data: Seq<u8>, m: int)
    requires
        new.len() == old.len(),
        written_upto(old, new, addr, data, m),
    ensures
        prefix_written(old, new, addr, data),
{
}

/// The superblock's fields as stored on `disk`.
pub open spec fn stored_superblock(disk: Seq<u8>) -> Seq<nat> {
    decode_record(disk.subrange(1024, 1108), widths(Ext2SuperBlock::field_widths()))
}

/// The extended superblock's fields as stored on `disk`.
pub open spec fn stored_extended_superblock(disk: Seq<u8>) -> Seq<nat> {
    decode_record(disk.subrange(1108, 1260), widths(Ext2ExtendedSuperblock::field_widths()))
}

proof fn lemma_full_byte_bit(b: u8, s: u8)
    requires
        b == 0xff,
        s < 8,
    ensures
        (b >> s) & 1 == 1,
{
    assert(b == 0xff && s < 8 ==> (b >> s) & 1 == 1) by (bit_vector);
}

/// Setting bit `s` of `b` sets it and keeps bit `t`; clearing it clears it
/// and keeps bit `t`.
proof fn lemma_bit_update(b: u8, s: u8, t: u8)
    by (bit_vector)
    requires
        s < 8,
        t < 8,
    ensures
        ((b | (1u8 << s)) >> s) & 1 == 1,
        ((b & !(1u8 << s)) >> s) & 1 == 0,
        t != s ==> ((b | (1u8 << s)) >> t) & 1 == (b >> t) & 1,
        t != s ==> ((b & !(1u8 << s)) >> t) & 1 == (b >> t) & 1,
{
}

proof fn lemma_all_bits_set(b: u8)
    requires
        (b >> 0u8) & 1 == 1,
        (b >> 1u8) & 1 == 1,
        (b >> 2u8) & 1 == 1,
        (b >> 3u8) & 1 == 1,
        (b >> 4u8) & 1 == 1,
        (b >> 5u8) & 1 == 1,
        (b >> 6u8) & 1 == 1,
        (b >> 7u8) & 1 == 1,
    ensures
        b == 0xff,
{
    assert((b >> 0u8) & 1 == 1 && (b >> 1u8) & 1 == 1 && (b >> 2u8) & 1 == 1 && (b >> 3u8) & 1 == 1
        && (b >> 4u8) & 1 == 1 && (b >> 5u8) & 1 == 1 && (b >> 6u8) & 1 == 1 && (b >> 7u8) & 1 == 1
        ==> b == 0xff) by (bit_vector);
}

proof fn lemma_mask_bit(b: u8, s: u8)
    requires
        s < 8,
    ensures
        (b & (1u8 << s) == 0) == ((b >> s) & 1 != 1),
        (b & !(1u8 << s)) >> s & 1 == 0,
{
    assert(s < 8 ==> (b & (1u8 << s) == 0) == ((b >> s) & 1 != 1) && (b & !(1u8 << s)) >> s & 1 == 0)
        by (bit_vector);
}

impl Ext2ExtendedSuperblock {
    fn has_unrecognised_required_features(&self) -> (r: bool)
        ensures
            r == (self.required_features & 0x000F != self.required_features),
    {
        self.required_features & 0x000F != self.required_features
    }

    fn has_unrecognised_write_required_features(&self) -> (r: bool)
        ensures
            r == (self.write_features & 0x0007 != self.write_features),
    {
        self.write_features & 0x0007 != self.write_features
    }

    fn has_required_feature_compression(&self) -> (r: bool)
        ensures
            r == (self.required_features & 0x0001 != 0),
    {
        self.required_features & 0x0001 != 0
    }

    pub fn has_required_feature_directory_entry_type_field(&self) -> (r: bool)
        ensures
            r == (self.required_features & 0x0002 != 0),
    {
        self.required_features & 0x0002 != 0
    }

    fn has_required_feature_replay_journal(&self) -> (r: bool)
        ensures
            r == (self.required_features & 0x0004 != 0),
    {
        self.required_features & 0x0004 != 0
    }

    fn has_required_feature_journal_device(&self) -> (r: bool)
        ensures
            r == (self.required_features & 0x0008 != 0),
    {
        self.required_features & 0x0008 != 0
    }

    fn has_write_required_feature_directory_contents_binary_tree(&self) -> (r: bool)
        ensures
            r == (self.write_features & 0x0004 != 0),
    {
        self.write_features & 0x0004 != 0
    }
}

/// An ext2 file system on the device `D`.
pub struct Ext2FS<D: IFile> {
    pub backing_device: D,
    pub sb: Ext2SuperBlock,
    pub extended_sb: Option<Ext2ExtendedSuperblock>,
    pub read_only: bool,
}

impl<D: IFile> Ext2FS<D> {
    pub open spec fn device(&self) -> D {
        self.backing_device
    }

    /// The bytes of the device.
    pub open spec fn disk(&self) -> Seq<u8> {
        self.device().data()
    }

    pub open spec fn is_read_only(&self) -> bool {
        self.read_only
    }

    pub open spec fn block_size(&self) -> nat {
        block_size_of(self.sb)
    }

    /// The size of an inode in the inode tables.
    pub open spec fn inode_size(&self) -> nat {
        if self.sb.major_version >= 1 {
            self.extended_sb.unwrap().inode_size as nat
        } else {
            128
        }
    }

    /// The geometry that the operations rely on: blocks of at most 8 MiB,
    /// non-empty block groups whose count the blocks and the inodes agree on,
    /// and an extended superblock exactly from major version 1 on.
    pub open spec fn wf(&self) -> bool {
        &&& self.sb.block_size_log2_minus_10 <= 13
        &&& self.sb.blocks_per_block_group > 0
        &&& self.sb.inodes_per_block_group > 0
        &&& block_group_count(self.sb) == block_group_count_by_inodes(self.sb)
        &&& block_group_count(self.sb) < u32::MAX
        &&& (self.sb.major_version >= 1 <==> self.extended_sb is Some)
    }

    /// Where inode `addr` (counted from 1) is, going by the descriptor of its
    /// block group on `disk`.
    pub open spec fn inode_location(&self, disk: Seq<u8>, addr: nat) -> nat {
        let g = ((addr - 1) as nat / self.sb.inodes_per_block_group as nat) as nat;
        let i = ((addr - 1) as nat % self.sb.inodes_per_block_group as nat) as nat;
        stored_descriptor(disk, self.sb, g)[2] * self.block_size() + i * self.inode_size()
    }

    /// Mounts the ext2 file system of `backing_dev`. It is refused where the
    /// superblock gives block groups no inodes, or where the extended
    /// superblock asks for features that are not supported (unknown ones,
    /// compression, a journal); unknown write features or a directory binary
    /// tree make it read-only.
    pub fn new(backing_dev: D, read_only: bool) -> (r: Option<Self>)
        ensures
            match r {
                Some(fs) => {
                    let disk = backing_dev.data();
                    &&& fs.device() == backing_dev
                    &&& disk.len() >= 1108
                    &&& fs.sb.values() == stored_superblock(disk)
                    &&& fs.sb.inodes_per_block_group >= 1
                    &&& if fs.sb.major_version >= 1 {
                        &&& disk.len() >= 1260
                        &&& fs.extended_sb matches Some(e) && e.values() == stored_extended_superblock(disk)
                            && required_features_supported(e.required_features) && fs.is_read_only() == (
                        read_only || !write_features_supported(e.write_features))
                    } else {
                        fs.extended_sb is None && fs.is_read_only() == read_only
                    }
                },
                None => true,
            },
            backing_dev.data().len() >= 1108 && stored_superblock(backing_dev.data())[10] == 0 ==> r is None,
            backing_dev.data().len() >= 1260 && stored_superblock(backing_dev.data())[22] >= 1
                && !required_features_supported(stored_extended_superblock(backing_dev.data())[4] as u32)
                ==> r is None,
    {
        let sb_data = match backing_dev.read(1024, 84) {
            Some(v) => v,
            None => return None,
        };
        assert(sb_data@ =~= backing_dev.data().subrange(1024, 1108));
        let major_version = match Ext2SuperBlock::unpack(sb_data.as_slice()) {
            Some(sb) => sb.major_version,
            None => return None,
        };
        if major_version >= 1 {
            let esb_data = match backing_dev.read(1024 + 84, 152) {
                Some(v) => v,
                None => return None,
            };
            assert(esb_data@ =~= backing_dev.data().subrange(1108, 1260));
            Self::mount(backing_dev, sb_data.as_slice(), Some(esb_data.as_slice()), read_only)
        } else {
            Self::mount(backing_dev, sb_data.as_slice(), None, read_only)
        }
    }

    /// Mounts the ext2 file system of `backing_dev` whose superblock holds
    /// the bytes `sb_bytes` and whose extended superblock, read only from
    /// major version 1 on, holds `esb_bytes`. It is refused exactly where the
    /// superblock is not 84 bytes or gives block groups no inodes, or, from
    /// major version 1 on, the extended superblock is not 152 bytes or asks
    /// for features that are not supported; unknown write features or a
    /// directory binary tree make it read-only.
    pub fn mount(backing_dev: D, sb_bytes: &[u8], esb_bytes: Option<&[u8]>, read_only: bool) -> (r: Option<Self>)
        ensures
            ({
                let f = decode_record(sb_bytes@, widths(Ext2SuperBlock::field_widths()));
                r is Some <==> sb_bytes@.len() == 84 && f[10] >= 1 && (f[22] >= 1 ==> (esb_bytes matches Some(e)
                    && e@.len() == 152 && required_features_supported(
                    decode_record(e@, widths(Ext2ExtendedSuperblock::field_widths()))[4] as u32,
                )))
            }),
            r matches Some(fs) ==> {
                &&& fs.device() == backing_dev
                &&& fs.sb.values() == decode_record(sb_bytes@, widths(Ext2SuperBlock::field_widths()))
                &&& if fs.sb.major_version >= 1 {
                    &&& esb_bytes matches Some(e)
                    &&& fs.extended_sb matches Some(x)
                    &&& x.values() == decode_record(esb_bytes->0@, widths(Ext2ExtendedSuperblock::field_widths()))
                    &&& fs.is_read_only() == (read_only || !write_features_supported(x.write_features))
                } else {
                    fs.extended_sb is None && fs.is_read_only() == read_only
                }
            },
    {
        let mut read_only = read_only;
        let sb = match Ext2SuperBlock::unpack(sb_bytes) {
            Some(sb) => sb,
            None => return None,
        };
        assert(sb.values()[10] == sb.inodes_per_block_group as nat);
        assert(sb.values()[22] == sb.major_version as nat);
        if sb.inodes_per_block_group < 1 {
            return None;
        }
        let mut extended_sb: Option<Ext2ExtendedSuperblock> = None;
        if sb.major_version >= 1 {
            let esb_data = match esb_bytes {
                Some(e) => e,
                None => return None,
            };
            let esb = match Ext2ExtendedSuperblock::unpack(esb_data) {
                Some(e) => e,
                None => return None,
            };
            assert(esb.values()[4] == esb.required_features as nat);
            if esb.has_unrecognised_required_features() {
                return None;
            }
            if esb.has_required_feature_compression() {
                return None;
            }
            if esb.has_required_feature_journal_device() {
                return None;
            }
            if esb.has_required_feature_replay_journal() {
                return None;
            }
            if esb.has_unrecognised_write_required_features() {
                read_only = true;
            }
            if esb.has_write_required_feature_directory_contents_binary_tree() {
                read_only = true;
            }
            extended_sb = Some(esb);
        }
        Some(Ext2FS { backing_device: backing_dev, sb, extended_sb, read_only })
    }

    /// The `size` bytes of the device from `addr` on.
    fn read(&self, addr: u32, size: usize) -> (r: Option<Vec<u8>>)
        ensures
            r matches Some(v) ==> addr + size <= self.disk().len() && v@ == self.disk().subrange(
                addr as int,
                addr + size,
            ),
    {
        self.backing_device.read(addr as usize, size)
    }

    /// Reads back what was written at `addr`: `Ok` where it is `written`,
    /// `Err(Some(i))` where it differs first at `i`, `Err(None)` where it
    /// cannot be read.
    fn sanity_check_write(&self, addr: u32, written_data: &[u8]) -> (r: Result<(), Option<usize>>)
        ensures
            r is Ok ==> addr + written_data@.len() <= self.disk().len() && self.disk().subrange(
                addr as int,
                addr + written_data@.len(),
            ) == written_data@,
            r matches Err(Some(i)) ==> addr + written_data@.len() <= self.disk().len() && i
                < written_data@.len() && self.disk()[addr + i] != written_data@[i as int] && forall|k: int|
                0 <= k < i ==> #[trigger] self.disk()[addr + k] == written_data@[k],
            addr + written_data@.len() <= self.disk().len() && self.disk().subrange(
                addr as int,
                addr + written_data@.len(),
            ) != written_data@ ==> r is Err,
    {
        let read_back_data = match self.read(addr, written_data.len()) {
            Some(v) => v,
            None => return Err(None),
        };
        let mut is_sane = true;
        let mut bad_offset: usize = 0;
        let mut i: usize = 0;
        while i < written_data.len()
            invariant_except_break
                is_sane,
            invariant
                i <= written_data@.len(),
                read_back_data@.len() == written_data@.len(),
                forall|k: int| 0 <= k < i ==> read_back_data@[k] == written_data@[k],
            ensures
                is_sane ==> forall|k: int| 0 <= k < written_data@.len() ==> read_back_data@[k] == written_data@[k],
                !is_sane ==> bad_offset < written_data@.len() && read_back_data@[bad_offset as int]
                    != written_data@[bad_offset as int] && forall|k: int|
                    0 <= k < bad_offset ==> read_back_data@[k] == written_data@[k],
            decreases written_data@.len() - i,
        {
            if i >= read_back_data.len() {
                return Err(Some(i));
            }
            if read_back_data[i] != written_data[i] {
                bad_offset = i;
                is_sane = false;
                break;
            }
            i = i + 1;
        }
        if !is_sane {
            proof {
                assert forall|k: int| 0 <= k < bad_offset implies #[trigger] self.disk()[addr + k] == written_data@[k] by {
                    assert(read_back_data@[k] == self.disk()[addr + k]);
                }
                assert(read_back_data@[bad_offset as int] == self.disk()[addr + bad_offset]);
            }
            return Err(Some(bad_offset));
        }
        assert(read_back_data@ =~= written_data@);
        Ok(())
    }

    /// Writes `data` at `addr` and reads it back; the number of bytes written,
    /// or `None` where the file system is read-only, the device refused or
    /// the bytes did not read back.
    fn write(&mut self, addr: u32, data: &[u8]) -> (r: Option<usize>)
        ensures
            final(self).sb == old(self).sb,
            final(self).extended_sb == old(self).extended_sb,
            final(self).is_read_only() == old(self).is_read_only(),
            old(self).is_read_only() ==> r is None && *final(self) == *old(self),
            changed_within(old(self).disk(), final(self).disk(), addr as int, addr + data@.len()),
            r is Some ==> {
                &&& final(self).disk().len() == old(self).disk().len()
                &&& addr + data@.len() <= final(self).disk().len()
                &&& final(self).disk().subrange(addr as int, addr + data@.len()) == data@
                &&& forall|i: int| 0 <= i < old(self).disk().len() && !(addr <= i < addr + data@.len())
                    ==> #[trigger] final(self).disk()[i] == old(self).disk()[i]
            },
            r matches Some(n) ==> n <= data@.len(),
            prefix_written(old(self).disk(), final(self).disk(), addr as int, data@),
    {
        if self.read_only {
            proof {
                lemma_prefix_written(self.disk(), self.disk(), addr as int, data@, 0);
            }
            return None;
        }
        let res = self.backing_device.write(addr as usize, data);
        proof {
            match res {
                Some(n) => {
                    assert forall|i: int| 0 <= i < old(self).disk().len() implies #[trigger] self.disk()[i] == if addr <= i
                        < addr + n {
                        data@[i - addr]
                    } else {
                        old(self).disk()[i]
                    } by {
                        if addr <= i < addr + n {
                            assert(self.disk().subrange(addr as int, addr + n)[i - addr] == self.disk()[i]);
                        }
                    }
                    lemma_prefix_written(old(self).disk(), self.disk(), addr as int, data@, n as int);
                },
                None => {
                    lemma_prefix_written(old(self).disk(), self.disk(), addr as int, data@, 0);
                },
            }
        }
        match self.sanity_check_write(addr, data) {
            Ok(()) => {},
            Err(_) => return None,
        }
        match res {
            Some(n) => {
                assert forall|i: int|
                    0 <= i < old(self).disk().len() && !(addr <= i < addr + data@.len()) implies #[trigger] self.disk()[i]
                        == old(self).disk()[i] by {
                    assert(!(addr <= i < addr + n));
                }
                Some(n)
            },
            None => None,
        }
    }

    /// The size of a block: 1024 shifted left by the superblock's logarithm.
    pub fn get_block_size(&self) -> (r: u32)
        requires
            self.sb.block_size_log2_minus_10 <= 21,
        ensures
            r == self.block_size(),
            r >= 1024,
    {
        let e: u32 = self.sb.block_size_log2_minus_10 + 10;
        proof {
            lemma_u32_pow2_no_overflow(e as nat);
            lemma_u32_shl_is_mul(1, e);
            lemma2_to64();
            if e > 10 {
                vstd::arithmetic::power2::lemma_pow2_strictly_increases(10, e as nat);
            }
        }
        1u32 << e
    }

    /// The size of a directory entry's header.
    pub fn get_directory_entry_header_size() -> (r: usize)
        ensures
            r == 8,
    {
        8
    }

    /// The size of a block group descriptor.
    pub fn get_block_group_descriptor_size() -> (r: usize)
        ensures
            r == 32,
    {
        32
    }

    /// The size of the superblock without its extension.
    pub fn get_super_block_size() -> (r: usize)
        ensures
            r == 84,
    {
        84
    }

    /// The rest of the 1024 bytes of the superblock.
    pub fn get_extended_super_block_size() -> (r: usize)
        ensures
            r == 940,
    {
        1024 - Self::get_super_block_size()
    }

    /// The size of an inode in the inode tables: 128 before major version 1,
    /// else as the extended superblock says.
    pub fn get_inode_size(&self) -> (r: usize)
        requires
            self.wf(),
        ensures
            r == self.inode_size(),
    {
        if self.sb.major_version >= 1 {
            match &self.extended_sb {
                Some(e) => e.inode_size as usize,
                None => 128,
            }
        } else {
            128
        }
    }

    /// The number of block groups.
    fn get_number_of_block_groups(&self) -> (r: u32)
        requires
            self.wf(),
        ensures
            r == block_group_count(self.sb),
    {
        self.sb.max_no_of_blocks / self.sb.blocks_per_block_group + if self.sb.max_no_of_blocks
            % self.sb.blocks_per_block_group != 0 {
            1
        } else {
            0
        }
    }

    /// The number of blocks before the first block group.
    fn get_number_of_special_blocks(&self) -> (r: usize)
        requires
            self.wf(),
        ensures
            r == special_block_count(self.sb),
            r < 0x1000_0000,
    {
        let bs = self.get_block_size() as u64;
        let initial_blocks: u64 = 2048 / bs + if 2048 % bs != 0 {
            1
        } else {
            0
        };
        let table_bytes: u64 = 32 * self.get_number_of_block_groups() as u64;
        let table_blocks: u64 = table_bytes / bs + if table_bytes % bs != 0 {
            1
        } else {
            0
        };
        assert(initial_blocks <= 3) by (nonlinear_arith)
            requires
                bs >= 1024,
                initial_blocks <= 2048u64 / bs + 1,
        ;
        assert(table_bytes / bs <= table_bytes / 1024) by (nonlinear_arith)
            requires
                bs >= 1024,
        ;
        (initial_blocks + table_blocks) as usize
    }

    /// The block group of block `block_number`; `None` for the blocks before
    /// the first group.
    pub fn get_descriptor_index_of_block_number(&self, block_number: u32) -> (r: Option<u32>)
        requires
            self.wf(),
        ensures
            r == if block_number < special_block_count(self.sb) {
                None::<u32>
            } else {
                Some(
                    ((block_number - special_block_count(self.sb)) as nat
                        / self.sb.blocks_per_block_group as nat) as u32,
                )
            },
    {
        let special = self.get_number_of_special_blocks() as u32;
        if block_number < special {
            return None;
        }
        Some((block_number - special) / self.sb.blocks_per_block_group)
    }

    /// The place of block `block_number` in its group; `None` for the blocks
    /// before the first group.
    pub fn get_descriptor_subindex_of_block_number(&self, block_number: u32) -> (r: Option<u32>)
        requires
            self.wf(),
        ensures
            r == if block_number < special_block_count(self.sb) {
                None::<u32>
            } else {
                Some(
                    ((block_number - special_block_count(self.sb)) as nat
                        % self.sb.blocks_per_block_group as nat) as u32,
                )
            },
    {
        let special = self.get_number_of_special_blocks() as u32;
        if block_number < special {
            return None;
        }
        Some((block_number - special) % self.sb.blocks_per_block_group)
    }

    /// The block group of inode `inode_addr` (inodes count from 1).
    pub fn get_descriptor_index_of_inode_addr(&self, inode_addr: u32) -> (r: u32)
        requires
            self.sb.inodes_per_block_group > 0,
            inode_addr >= 1,
        ensures
            r == (inode_addr - 1) as nat / self.sb.inodes_per_block_group as nat,
    {
        (inode_addr - 1) / self.sb.inodes_per_block_group
    }

    /// The place of inode `inode_addr` in its group's inode table.
    pub fn get_descriptor_subindex_of_inode_addr(&self, inode_addr: u32) -> (r: u32)
        requires
            self.sb.inodes_per_block_group > 0,
            inode_addr >= 1,
        ensures
            r == (inode_addr - 1) as nat % self.sb.inodes_per_block_group as nat,
    {
        (inode_addr - 1) % self.sb.inodes_per_block_group
    }
}

impl<D: IFile> Ext2FS<D> {
    /// Block `number`; `None` for block 0, which marks no block, and where
    /// the block cannot be read.
    pub fn read_block(&self, number: u32) -> (r: Option<Vec<u8>>)
        requires
            self.sb.block_size_log2_minus_10 <= 21,
        ensures
            r matches Some(v) ==> block_in_range(self.disk(), self.block_size(), number as nat) && v@
                == block_at(self.disk(), self.block_size(), number as nat),
            !block_in_range(self.disk(), self.block_size(), number as nat) ==> r is None,
    {
        if number == 0 {
            return None;
        }
        let bs = self.get_block_size();
        let addr = match bs.checked_mul(number) {
            Some(a) => a,
            None => return None,
        };
        assert(addr == number * bs) by (nonlinear_arith)
            requires
                addr == bs * number,
        ;
        self.read(addr, bs as usize)
    }

    /// Writes `data`, one block's worth, over block `number`.
    pub fn write_block(&mut self, number: u32, data: &[u8]) -> (r: Option<()>)
        requires
            old(self).sb.block_size_log2_minus_10 <= 21,
            data@.len() == old(self).block_size(),
        ensures
            final(self).sb == old(self).sb,
            final(self).extended_sb == old(self).extended_sb,
            final(self).is_read_only() == old(self).is_read_only(),
            number == 0 || old(self).is_read_only() ==> r is None,
            number == 0 || old(self).is_read_only() || number * old(self).block_size() > u32::MAX ==> *final(self)
                == *old(self),
            changed_within(
                old(self).disk(),
                final(self).disk(),
                number * old(self).block_size(),
                number * old(self).block_size() + old(self).block_size(),
            ),
            r is Some ==> {
                &&& final(self).disk().len() == old(self).disk().len()
                &&& block_in_range(final(self).disk(), final(self).block_size(), number as nat)
                &&& block_at(final(self).disk(), final(self).block_size(), number as nat) == data@
                &&& forall|i: int|
                    0 <= i < old(self).disk().len() && !(number * old(self).block_size() <= i < (number + 1)
                        * old(self).block_size()) ==> #[trigger] final(self).disk()[i] == old(self).disk()[i]
            },
            prefix_written(old(self).disk(), final(self).disk(), number * old(self).block_size(), data@),
    {
        proof {
            lemma_prefix_written(self.disk(), self.disk(), number * self.block_size(), data@, 0);
        }
        if number == 0 {
            return None;
        }
        let bs = self.get_block_size();
        let addr = match bs.checked_mul(number) {
            Some(a) => a,
            None => return None,
        };
        assert(addr == number * bs && (number + 1) * bs == addr + bs) by (nonlinear_arith)
            requires
                addr == bs * number,
        ;
        let bytes_written = match self.write(addr, data) {
            Some(n) => n,
            None => return None,
        };
        if bytes_written < bs as usize {
            return None;
        }
        Some(())
    }

    /// The descriptor of block group `block_group_descriptor_index`.
    pub fn read_block_group_descriptor(&self, block_group_descriptor_index: u32) -> (r: Option<
        Ext2BlockGroupDescriptor,
    >)
        requires
            self.sb.block_size_log2_minus_10 <= 21,
        ensures
            r matches Some(d) ==> descriptor_readable(self.disk(), self.sb, block_group_descriptor_index as nat)
                && d.values() == stored_descriptor(self.disk(), self.sb, block_group_descriptor_index as nat),
            !descriptor_readable(self.disk(), self.sb, block_group_descriptor_index as nat) ==> r is None,
    {
        let offset_of_descriptor_in_table = match block_group_descriptor_index.checked_mul(32) {
            Some(o) => o,
            None => return None,
        };
        let bs = self.get_block_size();
        let q = 2048 / bs;
        assert(q * bs <= 2048) by (nonlinear_arith)
            requires
                q == 2048u32 / bs,
                bs > 0,
        ;
        let table_addr = q * bs;
        let addr = match table_addr.checked_add(offset_of_descriptor_in_table) {
            Some(a) => a,
            None => return None,
        };
        let raw_descriptor = match self.read(addr, 32) {
            Some(v) => v,
            None => return None,
        };
        Ext2BlockGroupDescriptor::unpack(raw_descriptor.as_slice())
    }

    /// Writes `descriptor` as the descriptor of block group
    /// `block_group_descriptor_index`.
    pub fn write_block_group_descriptor(
        &mut self,
        block_group_descriptor_index: u32,
        descriptor: &Ext2BlockGroupDescriptor,
    ) -> (r: Option<()>)
        requires
            old(self).sb.block_size_log2_minus_10 <= 21,
        ensures
            final(self).sb == old(self).sb,
            final(self).extended_sb == old(self).extended_sb,
            final(self).is_read_only() == old(self).is_read_only(),
            old(self).is_read_only() ==> r is None && *final(self) == *old(self),
            changed_within(
                old(self).disk(),
                final(self).disk(),
                descriptor_addr(old(self).sb, block_group_descriptor_index as nat) as int,
                descriptor_addr(old(self).sb, block_group_descriptor_index as nat) + 32int,
            ),
            r is Some ==> {
                let a = descriptor_addr(old(self).sb, block_group_descriptor_index as nat);
                &&& final(self).disk().len() == old(self).disk().len()
                &&& descriptor_readable(final(self).disk(), final(self).sb, block_group_descriptor_index as nat)
                &&& stored_descriptor(final(self).disk(), final(self).sb, block_group_descriptor_index as nat)
                    == descriptor.values()
                &&& forall|i: int|
                    0 <= i < old(self).disk().len() && !(a <= i < a + 32) ==> #[trigger] final(self).disk()[i]
                        == old(self).disk()[i]
            },
    {
        let offset_of_descriptor_in_table = match block_group_descriptor_index.checked_mul(32) {
            Some(o) => o,
            None => return None,
        };
        let bs = self.get_block_size();
        let q = 2048 / bs;
        assert(q * bs <= 2048) by (nonlinear_arith)
            requires
                q == 2048u32 / bs,
                bs > 0,
        ;
        let table_addr = q * bs;
        let addr = match table_addr.checked_add(offset_of_descriptor_in_table) {
            Some(a) => a,
            None => return None,
        };
        let bytes = descriptor.pack();
        match self.write(addr, bytes.as_slice()) {
            Some(_) => {},
            None => return None,
        }
        proof {
            Ext2BlockGroupDescriptor::lemma_unpack_pack(*descriptor);
        }
        Some(())
    }

    /// Inode `inode_addr`, from the inode table of its block group.
    pub fn read_inode(&self, inode_addr: u32) -> (r: Option<Ext2RawInode>)
        requires
            self.wf(),
            inode_addr >= 1,
        ensures
            r matches Some(x) ==> {
                let g = (inode_addr - 1) as nat / self.sb.inodes_per_block_group as nat;
                let loc = self.inode_location(self.disk(), inode_addr as nat);
                &&& descriptor_readable(self.disk(), self.sb, g)
                &&& loc + 128 <= self.disk().len()
                &&& x.values() == decode_record(
                    self.disk().subrange(loc as int, loc + 128int),
                    widths(Ext2RawInode::field_widths()),
                )
            },
            self.inode_location(self.disk(), inode_addr as nat) > u32::MAX ==> r is None,
    {
        let block_group_descriptor_index = self.get_descriptor_index_of_inode_addr(inode_addr);
        let block_group_descriptor = match self.read_block_group_descriptor(block_group_descriptor_index) {
            Some(d) => d,
            None => return None,
        };
        let loc = match self.inode_addr_in_table(inode_addr, &block_group_descriptor) {
            Some(l) => l,
            None => return None,
        };
        let raw_inode = match self.read(loc, 128) {
            Some(v) => v,
            None => return None,
        };
        Ext2RawInode::unpack(raw_inode.as_slice())
    }

    /// The byte address of inode `inode_addr` in the table that `descriptor`
    /// points to; `None` where it does not fit a `u32`.
    fn inode_addr_in_table(&self, inode_addr: u32, descriptor: &Ext2BlockGroupDescriptor) -> (r: Option<u32>)
        requires
            self.wf(),
            inode_addr >= 1,
            descriptor.values() == stored_descriptor(
                self.disk(),
                self.sb,
                (inode_addr - 1) as nat / self.sb.inodes_per_block_group as nat,
            ),
        ensures
            r is Some <==> self.inode_location(self.disk(), inode_addr as nat) <= u32::MAX,
            r matches Some(l) ==> l == self.inode_location(self.disk(), inode_addr as nat),
    {
        let bs = self.get_block_size();
        let inode_table_addr = match descriptor.block_addr_for_inode_table.checked_mul(bs) {
            Some(a) => a,
            None => return None,
        };
        let inode_index_in_table = self.get_descriptor_subindex_of_inode_addr(inode_addr);
        let inode_size = self.get_inode_size() as u32;
        let offset = match inode_index_in_table.checked_mul(inode_size) {
            Some(o) => o,
            None => return None,
        };
        assert(descriptor.values()[2] == descriptor.block_addr_for_inode_table as nat);
        inode_table_addr.checked_add(offset)
    }

    /// Writes `raw_inode` as inode `inode_addr`.
    pub fn write_inode(&mut self, inode_addr: u32, raw_inode: &Ext2RawInode) -> (r: Option<()>)
        requires
            old(self).wf(),
            inode_addr >= 1,
        ensures
            final(self).sb == old(self).sb,
            final(self).extended_sb == old(self).extended_sb,
            final(self).is_read_only() == old(self).is_read_only(),
            old(self).is_read_only() ==> r is None,
            r is Some ==> {
                let loc = old(self).inode_location(old(self).disk(), inode_addr as nat);
                &&& final(self).disk().len() == old(self).disk().len()
                &&& loc + 128 <= final(self).disk().len()
                &&& decode_record(
                    final(self).disk().subrange(loc as int, loc + 128int),
                    widths(Ext2RawInode::field_widths()),
                ) == raw_inode.values()
                &&& forall|i: int|
                    0 <= i < old(self).disk().len() && !(loc <= i < loc + 128) ==> #[trigger] final(self).disk()[i]
                        == old(self).disk()[i]
            },
            old(self).inode_location(old(self).disk(), inode_addr as nat) > u32::MAX ==> r is None,
            changed_within(
                old(self).disk(),
                final(self).disk(),
                old(self).inode_location(old(self).disk(), inode_addr as nat) as int,
                old(self).inode_location(old(self).disk(), inode_addr as nat) + 128int,
            ),
    {
        let block_group_descriptor_index = self.get_descriptor_index_of_inode_addr(inode_addr);
        let block_group_descriptor = match self.read_block_group_descriptor(block_group_descriptor_index) {
            Some(d) => d,
            None => return None,
        };
        let loc = match self.inode_addr_in_table(inode_addr, &block_group_descriptor) {
            Some(l) => l,
            None => return None,
        };
        let bytes = raw_inode.pack();
        match self.write(loc, bytes.as_slice()) {
            Some(_) => {},
            None => return None,
        }
        proof {
            Ext2RawInode::lemma_unpack_pack(*raw_inode);
            assert(final(self).disk().subrange(loc as int, loc + 128int) == bytes@);
        }
        Some(())
    }

    /// Writes the superblock, and the extended superblock where there is one,
    /// back to the device.
    pub fn flush_super_blocks(&mut self) -> (r: Option<()>)
        ensures
            final(self).sb == old(self).sb,
            final(self).extended_sb == old(self).extended_sb,
            final(self).is_read_only() == old(self).is_read_only(),
            old(self).is_read_only() ==> r is None,
            changed_within(old(self).disk(), final(self).disk(), 1024, 1260),
            r is Some ==> {
                &&& final(self).disk().len() == old(self).disk().len()
                &&& final(self).disk().len() >= 1108
                &&& stored_superblock(final(self).disk()) == old(self).sb.values()
                &&& old(self).extended_sb matches Some(e) ==> final(self).disk().len() >= 1260
                    && stored_extended_superblock(final(self).disk()) == e.values()
            },
    {
        let sb_bytes = self.sb.pack();
        match self.write(1024, sb_bytes.as_slice()) {
            Some(_) => {},
            None => return None,
        }
        proof {
            Ext2SuperBlock::lemma_unpack_pack(self.sb);
        }
        match self.extended_sb {
            Some(esb) => {
                let ghost mid = self.disk();
                let esb_bytes = esb.pack();
                match self.write(1024 + 84, esb_bytes.as_slice()) {
                    Some(_) => {},
                    None => return None,
                }
                proof {
                    Ext2ExtendedSuperblock::lemma_unpack_pack(esb);
                    assert(self.disk().subrange(1024, 1108) =~= mid.subrange(1024, 1108));
                }
            },
            None => {},
        }
        Some(())
    }
}

/// The bitmap `bm` with bit `k` set (where `set`) or cleared; every other
/// bit, and every byte but the one of bit `k`, stays.
pub fn bitmap_with_bit(bm: &[u8], k: usize, set: bool) -> (r: Vec<u8>)
    requires
        k < 8 * bm@.len(),
    ensures
        r@.len() == bm@.len(),
        bit(r@, k as nat) == set,
        forall|j: nat| j < 8 * bm@.len() && j != k ==> #[trigger] bit(r@, j) == bit(bm@, j),
        forall|i: int| 0 <= i < bm@.len() && i != k / 8 ==> #[trigger] r@[i] == bm@[i],
{
    let n = bm.len();
    let mut r: Vec<u8> = Vec::new();
    let mut i: usize = 0;
    while i < n
        invariant
            n == bm@.len(),
            i <= n,
            r@ == bm@.subrange(0, i as int),
        decreases n - i,
    {
        r.push(bm[i]);
        i = i + 1;
        assert(r@ =~= bm@.subrange(0, i as int));
    }
    assert(r@ =~= bm@);
    let idx = k / 8;
    let s = (k % 8) as u8;
    let b = r[idx];
    if set {
        r.set(idx, b | (1u8 << s));
    } else {
        r.set(idx, b & !(1u8 << s));
    }
    proof {
        lemma_bit_update(b, s, 0);
        assert(k as nat / 8 == idx && (k as nat % 8) as u8 == s);
        assert forall|j: nat| j < 8 * bm@.len() && j != k implies #[trigger] bit(r@, j) == bit(bm@, j) by {
            if j / 8 == idx {
                lemma_bit_update(b, s, (j % 8) as u8);
            }
        }
    }
    r
}

/// Bytes apart from those a write may change keep their values.
proof fn lemma_kept(old: Seq<u8>, new: Seq<u8>, lo: int, hi: int, b: int, len: int)
    requires
        changed_within(old, new, lo, hi),
        apart(b, len, lo, hi - lo),
        0 <= b,
        0 <= len,
        b + len <= old.len(),
    ensures
        new.subrange(b, b + len) == old.subrange(b, b + len),
{
    assert forall|i: int| 0 <= i < len implies #[trigger] new.subrange(b, b + len)[i] == old.subrange(b, b + len)[i] by {
        assert(new[b + i] == old[b + i]);
    }
    assert(new.subrange(b, b + len) =~= old.subrange(b, b + len));
}

/// The first byte of `bm` that is not all ones.
fn find_non_full_byte(bm: &[u8]) -> (r: Option<usize>)
    ensures
        match r {
            Some(i) => i < bm@.len() && bm@[i as int] != 0xff && forall|j: int| 0 <= j < i ==> bm@[j] == 0xff,
            None => forall|j: int| 0 <= j < bm@.len() ==> bm@[j] == 0xff,
        },
{
    let mut i: usize = 0;
    while i < bm.len()
        invariant
            i <= bm@.len(),
            forall|j: int| 0 <= j < i ==> bm@[j] == 0xff,
        decreases bm@.len() - i,
    {
        if bm[i] != 0xff {
            return Some(i);
        }
        i = i + 1;
    }
    None
}

/// The lowest clear bit of `b`.
fn lowest_clear_bit(b: u8) -> (r: u8)
    requires
        b != 0xff,
    ensures
        r < 8,
        (b >> r) & 1 != 1,
        forall|s: u8| s < r ==> (b >> s) & 1 == 1,
{
    let mut bit: u8 = 0;
    while (b >> bit) & 1 != 0
        invariant
            bit < 8,
            b != 0xff,
            forall|s: u8| s < bit ==> (b >> s) & 1 == 1,
        decreases 8 - bit,
    {
        proof {
            assert((b >> bit) & 1 == 1) by (bit_vector)
                requires
                    (b >> bit) & 1 != 0,
            ;
            if bit == 7 {
                assert((b >> 0u8) & 1 == 1 && (b >> 1u8) & 1 == 1 && (b >> 2u8) & 1 == 1 && (b >> 3u8) & 1
                    == 1 && (b >> 4u8) & 1 == 1 && (b >> 5u8) & 1 == 1 && (b >> 6u8) & 1 == 1);
                lemma_all_bits_set(b);
            }
        }
        bit = bit + 1;
    }
    bit
}

proof fn lemma_first_clear_bit(bm: Seq<u8>, loc: nat, b: u8)
    requires
        loc < bm.len(),
        bm[loc as int] != 0xff,
        forall|j: int| 0 <= j < loc ==> bm[j] == 0xff,
        b < 8,
        (bm[loc as int] >> b) & 1 != 1,
        forall|s: u8| s < b ==> (bm[loc as int] >> s) & 1 == 1,
    ensures
        first_clear_bit(bm, (loc * 8 + b) as nat),
{
    let k = (loc * 8 + b) as nat;
    assert(k / 8 == loc && k % 8 == b);
    assert forall|j: nat| j < k implies #[trigger] bit(bm, j) by {
        if j / 8 < loc {
            lemma_full_byte_bit(bm[(j / 8) as int], (j % 8) as u8);
        } else {
            assert(j / 8 == loc);
            assert(((j % 8) as u8) < b);
        }
    }
}

/// A block of zeros.
fn zeroed_block(n: usize) -> (r: Vec<u8>)
    ensures
        r@ == Seq::new(n as nat, |_i: int| 0u8),
{
    let mut r: Vec<u8> = Vec::new();
    let mut k: usize = 0;
    while k < n
        invariant
            k <= n,
            r@ == Seq::new(k as nat, |_i: int| 0u8),
        decreases n - k,
    {
        r.push(0);
        assert(r@ =~= Seq::new((k + 1) as nat, |_i: int| 0u8));
        k = k + 1;
    }
    r
}

impl<D: IFile> Ext2FS<D> {
    /// Allocates the first free block of block group
    /// `block_group_descriptor_index`: marks it in the group's bitmap, counts
    /// it in the descriptor and the superblock, and fills it with zeros.
    pub fn alloc_block(&mut self, block_group_descriptor_index: u32) -> (r: Option<u32>)
        requires
            old(self).wf(),
        ensures
            final(self).wf(),
            final(self).sb == (Ext2SuperBlock { unallocated_blocks: final(self).sb.unallocated_blocks, ..old(self).sb }),
            final(self).extended_sb == old(self).extended_sb,
            final(self).is_read_only() == old(self).is_read_only(),
            final(self).sb.unallocated_blocks <= old(self).sb.unallocated_blocks,
            old(self).sb.unallocated_blocks == 0 || old(self).is_read_only() ==> r is None,
            r matches Some(p) ==> {
                let g = block_group_descriptor_index as nat;
                let d = stored_descriptor(old(self).disk(), old(self).sb, g);
                let bs = old(self).block_size();
                let first = g * old(self).sb.blocks_per_block_group + special_block_count(old(self).sb);
                &&& descriptor_readable(old(self).disk(), old(self).sb, g)
                &&& d[3] > 0
                &&& block_in_range(old(self).disk(), bs, d[0])
                &&& p >= first
                &&& first_clear_bit(block_at(old(self).disk(), bs, d[0]), (p - first) as nat)
                &&& final(self).sb.unallocated_blocks == old(self).sb.unallocated_blocks - 1
                &&& block_in_range(final(self).disk(), bs, p as nat)
                &&& block_at(final(self).disk(), bs, p as nat) == Seq::new(bs, |_i: int| 0u8)
            },
            old(self).sb.unallocated_blocks == 0 || old(self).is_read_only() ==> *final(self) == *old(self),
            r matches Some(p) ==> {
                let g = block_group_descriptor_index as nat;
                let d = stored_descriptor(old(self).disk(), old(self).sb, g);
                let bs = old(self).block_size();
                let first = g * old(self).sb.blocks_per_block_group + special_block_count(old(self).sb);
                let old_bm = block_at(old(self).disk(), bs, d[0]);
                let bm = block_at(final(self).disk(), bs, d[0]);
                apart((d[0] * bs) as int, bs as int, descriptor_addr(old(self).sb, g) as int, 32) && apart(
                    (d[0] * bs) as int,
                    bs as int,
                    1024,
                    236,
                ) && apart((d[0] * bs) as int, bs as int, p * bs, bs as int) ==> {
                    &&& block_in_range(final(self).disk(), bs, d[0])
                    &&& bit(bm, (p - first) as nat)
                    &&& forall|j: nat| j < 8 * bs && j != p - first ==> #[trigger] bit(bm, j) == bit(old_bm, j)
                }
            },
    {
        if self.sb.unallocated_blocks == 0 {
            return None;
        }
        let g = block_group_descriptor_index;
        let mut descriptor = match self.read_block_group_descriptor(g) {
            Some(d) => d,
            None => return None,
        };
        if descriptor.unallocated_blocks_in_group == 0 {
            return None;
        }
        let bitmap_addr = descriptor.block_addr_for_block_usage_bitmap;
        let mut bitmap = match self.read_block(bitmap_addr) {
            Some(b) => b,
            None => return None,
        };
        let loc = match find_non_full_byte(bitmap.as_slice()) {
            Some(i) => i,
            None => return None,
        };
        let byte = bitmap[loc];
        let found_bit = lowest_clear_bit(byte);
        let bs = self.get_block_size();
        proof {
            lemma2_to64();
            if self.sb.block_size_log2_minus_10 + 10 < 23 {
                vstd::arithmetic::power2::lemma_pow2_strictly_increases(
                    (self.sb.block_size_log2_minus_10 + 10) as nat,
                    23,
                );
            }
            assert(pow2(23) == 0x80_0000) by {
                vstd::arithmetic::power2::lemma2_to64_rest();
            }
        }
        assert(loc < 0x80_0000);
        let free_block_in_blockgroup = loc * 8 + found_bit as usize;
        let group_start = match g.checked_mul(self.sb.blocks_per_block_group) {
            Some(x) => x,
            None => return None,
        };
        let special = self.get_number_of_special_blocks() as u32;
        let first = match group_start.checked_add(special) {
            Some(x) => x,
            None => return None,
        };
        let block_pointer_to_allocate = match (free_block_in_blockgroup as u32).checked_add(first) {
            Some(x) => x,
            None => return None,
        };
        proof {
            lemma_first_clear_bit(bitmap@, loc as nat, found_bit);
            assert(descriptor.values()[0] == bitmap_addr as nat);
            assert(descriptor.values()[3] == descriptor.unallocated_blocks_in_group as nat);
        }
        let bitmap = bitmap_with_bit(bitmap.as_slice(), free_block_in_blockgroup, true);
        match self.write_block(bitmap_addr, bitmap.as_slice()) {
            Some(()) => {},
            None => return None,
        }
        let ghost mid1 = self.disk();
        descriptor.unallocated_blocks_in_group = descriptor.unallocated_blocks_in_group - 1;
        match self.write_block_group_descriptor(g, &descriptor) {
            Some(()) => {},
            None => return None,
        }
        let ghost mid2 = self.disk();
        self.sb.unallocated_blocks = self.sb.unallocated_blocks - 1;
        let _ = self.flush_super_blocks();
        let ghost mid3 = self.disk();
        let zeros = zeroed_block(bs as usize);
        match self.write_block(block_pointer_to_allocate, zeros.as_slice()) {
            Some(()) => {},
            None => return None,
        }
        proof {
            let gbs = old(self).block_size();
            let b0 = bitmap_addr as nat * gbs;
            let p = block_pointer_to_allocate as nat;
            if apart(b0 as int, gbs as int, descriptor_addr(old(self).sb, g as nat) as int, 32) && apart(
                b0 as int,
                gbs as int,
                1024,
                236,
            ) && apart(b0 as int, gbs as int, (p * gbs) as int, gbs as int) {
                assert forall|i: int| 0 <= i < gbs implies #[trigger] block_at(self.disk(), gbs, bitmap_addr as nat)[i]
                    == bitmap@[i] by {
                    assert(self.disk()[b0 + i] == mid3[b0 + i]);
                    assert(mid3[b0 + i] == mid2[b0 + i]);
                    assert(mid2[b0 + i] == mid1[b0 + i]);
                    assert(block_at(mid1, gbs, bitmap_addr as nat)[i] == mid1[b0 + i]);
                }
                assert(block_at(self.disk(), gbs, bitmap_addr as nat) =~= bitmap@);
            }
        }
        Some(block_pointer_to_allocate)
    }

    /// Frees block `number`: clears it in its group's bitmap and counts it in
    /// the descriptor and the superblock. `None` where every block is already
    /// free, the block comes before the first group, the group or the bitmap
    /// cannot be read or counts no used block, or the block is not in use.
    pub fn dealloc_block(&mut self, number: u32) -> (r: Option<()>)
        requires
            old(self).wf(),
        ensures
            final(self).wf(),
            final(self).sb == (Ext2SuperBlock { unallocated_blocks: final(self).sb.unallocated_blocks, ..old(self).sb }),
            final(self).extended_sb == old(self).extended_sb,
            final(self).is_read_only() == old(self).is_read_only(),
            old(self).sb.unallocated_blocks == old(self).sb.max_no_of_blocks ==> r is None,
            number < special_block_count(old(self).sb) || old(self).is_read_only() ==> r is None,
            old(self).sb.unallocated_blocks == old(self).sb.max_no_of_blocks || number < special_block_count(
                old(self).sb,
            ) || old(self).is_read_only() ==> *final(self) == *old(self),
            r is None ==> final(self).sb.unallocated_blocks == old(self).sb.unallocated_blocks,
            r is Some ==> {
                let bs = old(self).block_size();
                let n = (number - special_block_count(old(self).sb)) as nat;
                let g = n / old(self).sb.blocks_per_block_group as nat;
                let d = stored_descriptor(old(self).disk(), old(self).sb, g);
                &&& descriptor_readable(old(self).disk(), old(self).sb, g)
                &&& block_in_range(old(self).disk(), bs, d[0])
                &&& bit(block_at(old(self).disk(), bs, d[0]), n % old(self).sb.blocks_per_block_group as nat)
                &&& final(self).sb.unallocated_blocks == old(self).sb.unallocated_blocks + 1
            },
            r is Some ==> {
                let bs = old(self).block_size();
                let n = (number - special_block_count(old(self).sb)) as nat;
                let g = n / old(self).sb.blocks_per_block_group as nat;
                let k = n % old(self).sb.blocks_per_block_group as nat;
                let d = stored_descriptor(old(self).disk(), old(self).sb, g);
                let old_bm = block_at(old(self).disk(), bs, d[0]);
                let bm = block_at(final(self).disk(), bs, d[0]);
                apart((d[0] * bs) as int, bs as int, descriptor_addr(old(self).sb, g) as int, 32) && apart(
                    (d[0] * bs) as int,
                    bs as int,
                    1024,
                    236,
                ) ==> {
                    &&& block_in_range(final(self).disk(), bs, d[0])
                    &&& !bit(bm, k) || bm == old_bm
                    &&& forall|j: nat| j < 8 * bs && j != k ==> #[trigger] bit(bm, j) == bit(old_bm, j)
                }
            },
    {
        if self.sb.unallocated_blocks == self.sb.max_no_of_blocks {
            return None;
        }
        let g = match self.get_descriptor_index_of_block_number(number) {
            Some(g) => g,
            None => return None,
        };
        let offset_in_block_group = match self.get_descriptor_subindex_of_block_number(number) {
            Some(o) => o,
            None => return None,
        };
        let mut descriptor = match self.read_block_group_descriptor(g) {
            Some(d) => d,
            None => return None,
        };
        if descriptor.unallocated_blocks_in_group as u32 == self.sb.blocks_per_block_group {
            return None;
        }
        let bitmap_addr = descriptor.block_addr_for_block_usage_bitmap;
        let mut bitmap = match self.read_block(bitmap_addr) {
            Some(b) => b,
            None => return None,
        };
        let byte_index = (offset_in_block_group / 8) as usize;
        if byte_index >= bitmap.len() {
            return None;
        }
        let mut val_to_edit = bitmap[byte_index];
        let s = (offset_in_block_group % 8) as u8;
        proof {
            lemma_mask_bit(val_to_edit, s);
            assert(descriptor.values()[0] == bitmap_addr as nat);
        }
        if val_to_edit & (1u8 << s) == 0 {
            return None;
        }
        let ghost old_bitmap = bitmap@;
        let bitmap = bitmap_with_bit(bitmap.as_slice(), offset_in_block_group as usize, false);
        let _ = self.write_block(bitmap_addr, bitmap.as_slice());
        let ghost mid1 = self.disk();
        proof {
            let gbs = old(self).block_size();
            let b0 = bitmap_addr as nat * gbs;
            let q = (offset_in_block_group / 8) as int;
            let m = choose|m: int| #[trigger] written_upto(old(self).disk(), mid1, b0 as int, bitmap@, m);
            assert(block_at(old(self).disk(), gbs, bitmap_addr as nat) == old_bitmap);
            if m > q {
                assert forall|i: int| 0 <= i < gbs implies #[trigger] block_at(mid1, gbs, bitmap_addr as nat)[i] == bitmap@[i] by {
                    assert(mid1[b0 + i] == if b0 <= b0 + i < b0 + m { bitmap@[b0 + i - b0] } else { old(self).disk()[b0 + i] });
                    if i >= m {
                        assert(old(self).disk()[b0 + i] == old_bitmap[i]);
                    }
                }
                assert(block_at(mid1, gbs, bitmap_addr as nat) =~= bitmap@);
            } else {
                assert forall|i: int| 0 <= i < gbs implies #[trigger] block_at(mid1, gbs, bitmap_addr as nat)[i] == old_bitmap[i] by {
                    assert(mid1[b0 + i] == if b0 <= b0 + i < b0 + m { bitmap@[b0 + i - b0] } else { old(self).disk()[b0 + i] });
                    assert(old(self).disk()[b0 + i] == old_bitmap[i]);
                }
                assert(block_at(mid1, gbs, bitmap_addr as nat) =~= old_bitmap);
            }
        }
        if descriptor.unallocated_blocks_in_group == 0xffff {
            return None;
        }
        descriptor.unallocated_blocks_in_group = descriptor.unallocated_blocks_in_group + 1;
        match self.write_block_group_descriptor(g, &descriptor) {
            Some(()) => {},
            None => return None,
        }
        let ghost mid2 = self.disk();
        if self.sb.unallocated_blocks == u32::MAX {
            return None;
        }
        self.sb.unallocated_blocks = self.sb.unallocated_blocks + 1;
        let _ = self.flush_super_blocks();
        proof {
            let gbs = old(self).block_size();
            let b0 = bitmap_addr as nat * gbs;
            let da = descriptor_addr(old(self).sb, g as nat) as int;
            if apart(b0 as int, gbs as int, da, 32) && apart(b0 as int, gbs as int, 1024, 236) {
                lemma_kept(mid1, mid2, da, da + 32, b0 as int, gbs as int);
                lemma_kept(mid2, self.disk(), 1024, 1260, b0 as int, gbs as int);
                assert(block_at(self.disk(), gbs, bitmap_addr as nat) == block_at(mid1, gbs, bitmap_addr as nat));
            }
        }
        Some(())
    }

    /// Allocates a block in the first block group from
    /// `block_group_descriptor_index` on that has one free.
    pub fn alloc_block_close_to(&mut self, block_group_descriptor_index: u32) -> (r: Option<u32>)
        requires
            old(self).wf(),
        ensures
            final(self).wf(),
            final(self).sb == (Ext2SuperBlock { unallocated_blocks: final(self).sb.unallocated_blocks, ..old(self).sb }),
            final(self).extended_sb == old(self).extended_sb,
            final(self).is_read_only() == old(self).is_read_only(),
            final(self).sb.unallocated_blocks <= old(self).sb.unallocated_blocks,
            old(self).sb.unallocated_blocks == 0 || old(self).is_read_only() ==> r is None,
            r matches Some(p) ==> p >= special_block_count(old(self).sb) && final(self).sb.unallocated_blocks
                < old(self).sb.unallocated_blocks,
    {
        let mut g = block_group_descriptor_index;
        let n = self.get_number_of_block_groups();
        loop
            invariant
                self.wf(),
                self.sb == (Ext2SuperBlock { unallocated_blocks: self.sb.unallocated_blocks, ..old(self).sb }),
                self.extended_sb == old(self).extended_sb,
                self.is_read_only() == old(self).is_read_only(),
                self.sb.unallocated_blocks <= old(self).sb.unallocated_blocks,
                n == block_group_count(old(self).sb),
            decreases u32::MAX - g,
        {
            match self.alloc_block(g) {
                Some(ptr) => {
                    return Some(ptr);
                },
                None => {},
            }
            if g >= n {
                return None;
            }
            g = g + 1;
        }
    }
}

impl<D: IFile> Ext2FS<D> {
    /// Frees inode `inode_addr` in its group's bitmap and counts it in the
    /// descriptor and the superblock; the inode's data stays allocated.
    /// `None` where every inode is already free, the group or the bitmap
    /// cannot be read or counts no used inode, or the inode is not in use.
    pub fn dealloc_inode(&mut self, inode_addr: u32) -> (r: Option<()>)
        requires
            old(self).wf(),
            inode_addr >= 1,
        ensures
            final(self).wf(),
            final(self).sb == (Ext2SuperBlock { unallocated_inodes: final(self).sb.unallocated_inodes, ..old(self).sb }),
            final(self).extended_sb == old(self).extended_sb,
            final(self).is_read_only() == old(self).is_read_only(),
            old(self).sb.unallocated_inodes == old(self).sb.max_no_of_inodes || old(self).is_read_only() ==> r is None,
            r is None ==> final(self).sb.unallocated_inodes == old(self).sb.unallocated_inodes,
            r is Some ==> {
                let bs = old(self).block_size();
                let g = (inode_addr - 1) as nat / old(self).sb.inodes_per_block_group as nat;
                let d = stored_descriptor(old(self).disk(), old(self).sb, g);
                &&& descriptor_readable(old(self).disk(), old(self).sb, g)
                &&& block_in_range(old(self).disk(), bs, d[1])
                &&& bit(
                    block_at(old(self).disk(), bs, d[1]),
                    (inode_addr - 1) as nat % old(self).sb.inodes_per_block_group as nat,
                )
                &&& final(self).sb.unallocated_inodes == old(self).sb.unallocated_inodes + 1
            },
            old(self).sb.unallocated_inodes == old(self).sb.max_no_of_inodes || old(self).is_read_only()
                ==> *final(self) == *old(self),
            r is Some ==> {
                let bs = old(self).block_size();
                let g = (inode_addr - 1) as nat / old(self).sb.inodes_per_block_group as nat;
                let k = (inode_addr - 1) as nat % old(self).sb.inodes_per_block_group as nat;
                let d = stored_descriptor(old(self).disk(), old(self).sb, g);
                let old_bm = block_at(old(self).disk(), bs, d[1]);
                let bm = block_at(final(self).disk(), bs, d[1]);
                apart((d[1] * bs) as int, bs as int, descriptor_addr(old(self).sb, g) as int, 32) && apart(
                    (d[1] * bs) as int,
                    bs as int,
                    1024,
                    236,
                ) ==> {
                    &&& block_in_range(final(self).disk(), bs, d[1])
                    &&& !bit(bm, k)
                    &&& forall|j: nat| j < 8 * bs && j != k ==> #[trigger] bit(bm, j) == bit(old_bm, j)
                }
            },
    {
        if self.sb.unallocated_inodes == self.sb.max_no_of_inodes {
            return None;
        }
        let g = self.get_descriptor_index_of_inode_addr(inode_addr);
        let offset_in_block_group = self.get_descriptor_subindex_of_inode_addr(inode_addr);
        let mut descriptor = match self.read_block_group_descriptor(g) {
            Some(d) => d,
            None => return None,
        };
        if descriptor.unallocated_inodes_in_group as u32 == self.sb.inodes_per_block_group {
            return None;
        }
        let bitmap_addr = descriptor.block_addr_for_inode_usage_bitmap;
        let mut allocation_bitmap = match self.read_block(bitmap_addr) {
            Some(b) => b,
            None => return None,
        };
        let byte_index = offset_in_block_group as usize / 8;
        if byte_index >= allocation_bitmap.len() {
            return None;
        }
        let mut val_to_edit = allocation_bitmap[byte_index];
        let s = (offset_in_block_group % 8) as u8;
        proof {
            lemma_mask_bit(val_to_edit, s);
            assert(descriptor.values()[1] == bitmap_addr as nat);
        }
        if val_to_edit & (1u8 << s) == 0 {
            return None;
        }
        let allocation_bitmap = bitmap_with_bit(allocation_bitmap.as_slice(), offset_in_block_group as usize, false);
        match self.write_block(bitmap_addr, allocation_bitmap.as_slice()) {
            Some(()) => {},
            None => return None,
        }
        let ghost mid1 = self.disk();
        if descriptor.unallocated_inodes_in_group == 0xffff {
            return None;
        }
        descriptor.unallocated_inodes_in_group = descriptor.unallocated_inodes_in_group + 1;
        match self.write_block_group_descriptor(g, &descriptor) {
            Some(()) => {},
            None => return None,
        }
        let ghost mid2 = self.disk();
        if self.sb.unallocated_inodes == u32::MAX {
            return None;
        }
        self.sb.unallocated_inodes = self.sb.unallocated_inodes + 1;
        let _ = self.flush_super_blocks();
        proof {
            let gbs = old(self).block_size();
            let b0 = bitmap_addr as nat * gbs;
            if apart(b0 as int, gbs as int, descriptor_addr(old(self).sb, g as nat) as int, 32) && apart(
                b0 as int,
                gbs as int,
                1024,
                236,
            ) {
                assert forall|i: int| 0 <= i < gbs implies #[trigger] block_at(self.disk(), gbs, bitmap_addr as nat)[i]
                    == allocation_bitmap@[i] by {
                    assert(self.disk()[b0 + i] == mid2[b0 + i]);
                    assert(mid2[b0 + i] == mid1[b0 + i]);
                    assert(block_at(mid1, gbs, bitmap_addr as nat)[i] == mid1[b0 + i]);
                }
                assert(block_at(self.disk(), gbs, bitmap_addr as nat) =~= allocation_bitmap@);
            }
        }
        Some(())
    }

    /// Allocates the first free inode of block group
    /// `block_group_descriptor_index`: marks it in the group's inode bitmap,
    /// counts it in the descriptor and the superblock, and writes it as the
    /// inode with every field 0. Inode 1 is never handed out.
    #[verifier::spinoff_prover]
    #[verifier::rlimit(100)]
    pub fn alloc_inode(&mut self, block_group_descriptor_index: u32) -> (r: Option<u32>)
        requires
            old(self).wf(),
        ensures
            final(self).wf(),
            final(self).sb == (Ext2SuperBlock { unallocated_inodes: final(self).sb.unallocated_inodes, ..old(self).sb }),
            final(self).extended_sb == old(self).extended_sb,
            final(self).is_read_only() == old(self).is_read_only(),
            final(self).sb.unallocated_inodes <= old(self).sb.unallocated_inodes,
            old(self).sb.unallocated_inodes == 0 || old(self).is_read_only() ==> r is None,
            old(self).sb.unallocated_inodes == 0 || old(self).is_read_only() ==> *final(self) == *old(self),
            r matches Some(a) ==> {
                let g = block_group_descriptor_index as nat;
                let d = stored_descriptor(old(self).disk(), old(self).sb, g);
                let bs = old(self).block_size();
                let first = g * old(self).sb.inodes_per_block_group + 1;
                &&& descriptor_readable(old(self).disk(), old(self).sb, g)
                &&& d[4] > 0
                &&& block_in_range(old(self).disk(), bs, d[1])
                &&& a >= first && a != 1
                &&& first_clear_bit(block_at(old(self).disk(), bs, d[1]), (a - first) as nat)
                &&& final(self).sb.unallocated_inodes == old(self).sb.unallocated_inodes - 1
            },
            r matches Some(a) ==> {
                let g = block_group_descriptor_index as nat;
                let d = stored_descriptor(old(self).disk(), old(self).sb, g);
                let bs = old(self).block_size();
                let first = g * old(self).sb.inodes_per_block_group + 1;
                let b0 = (d[1] * bs) as int;
                let da = descriptor_addr(old(self).sb, g) as int;
                let loc = old(self).inode_location(old(self).disk(), a as nat) as int;
                let old_bm = block_at(old(self).disk(), bs, d[1]);
                let bm = block_at(final(self).disk(), bs, d[1]);
                (a - 1) as nat / old(self).sb.inodes_per_block_group as nat == g && apart(b0, bs as int, da, 32)
                    && apart(b0, bs as int, 1024, 236) && apart(da, 32, 1024, 236) && apart(b0, bs as int, loc, 128)
                    ==> {
                    &&& block_in_range(final(self).disk(), bs, d[1])
                    &&& bit(bm, (a - first) as nat)
                    &&& forall|j: nat| j < 8 * bs && j != a - first ==> #[trigger] bit(bm, j) == bit(old_bm, j)
                }
            },
            r matches Some(a) ==> {
                let g = block_group_descriptor_index as nat;
                let d = stored_descriptor(old(self).disk(), old(self).sb, g);
                let bs = old(self).block_size();
                let b0 = (d[1] * bs) as int;
                let da = descriptor_addr(old(self).sb, g) as int;
                let loc = old(self).inode_location(old(self).disk(), a as nat) as int;
                (a - 1) as nat / old(self).sb.inodes_per_block_group as nat == g && apart(b0, bs as int, da, 32)
                    && apart(b0, bs as int, 1024, 236) && apart(da, 32, 1024, 236) && apart(b0, bs as int, loc, 128)
                    && apart(da, 32, loc, 128) ==> stored_inode(*final(self), a as nat) == Seq::new(34, |_i: int| 0nat)
            },
    {
        if self.sb.unallocated_inodes == 0 {
            return None;
        }
        let g = block_group_descriptor_index;
        let mut descriptor = match self.read_block_group_descriptor(g) {
            Some(d) => d,
            None => return None,
        };
        if descriptor.unallocated_inodes_in_group == 0 {
            return None;
        }
        let bitmap_addr = descriptor.block_addr_for_inode_usage_bitmap;
        let mut allocation_bitmap = match self.read_block(bitmap_addr) {
            Some(b) => b,
            None => return None,
        };
        let loc = match find_non_full_byte(allocation_bitmap.as_slice()) {
            Some(i) => i,
            None => return None,
        };
        let byte = allocation_bitmap[loc];
        let found_bit = lowest_clear_bit(byte);
        proof {
            lemma2_to64();
            if self.sb.block_size_log2_minus_10 + 10 < 23 {
                vstd::arithmetic::power2::lemma_pow2_strictly_increases(
                    (self.sb.block_size_log2_minus_10 + 10) as nat,
                    23,
                );
            }
        }
        assert(loc < 0x80_0000);
        let free_inode_index_in_table = loc * 8 + found_bit as usize;
        let group_start = match self.sb.inodes_per_block_group.checked_mul(g) {
            Some(x) => x,
            None => return None,
        };
        let first = match group_start.checked_add(1) {
            Some(x) => x,
            None => return None,
        };
        let inode_addr_to_allocate = match (free_inode_index_in_table as u32).checked_add(first) {
            Some(x) => x,
            None => return None,
        };
        if inode_addr_to_allocate == 1 {
            return None;
        }
        proof {
            lemma_first_clear_bit(allocation_bitmap@, loc as nat, found_bit);
            assert(descriptor.values()[1] == bitmap_addr as nat);
            assert(descriptor.values()[4] == descriptor.unallocated_inodes_in_group as nat);
        }
        let allocation_bitmap = bitmap_with_bit(allocation_bitmap.as_slice(), free_inode_index_in_table, true);
        match self.write_block(bitmap_addr, allocation_bitmap.as_slice()) {
            Some(()) => {},
            None => return None,
        }
        let ghost mid1 = self.disk();
        let ghost old_descriptor = descriptor;
        descriptor.unallocated_inodes_in_group = descriptor.unallocated_inodes_in_group - 1;
        match self.write_block_group_descriptor(g, &descriptor) {
            Some(()) => {},
            None => return None,
        }
        let ghost mid2 = self.disk();
        self.sb.unallocated_inodes = self.sb.unallocated_inodes - 1;
        let _ = self.flush_super_blocks();
        let ghost mid3 = self.disk();
        let ghost fs3 = *self;
        let zero_inode = Ext2RawInode::default();
        match self.write_inode(inode_addr_to_allocate, &zero_inode) {
            Some(()) => {},
            None => return None,
        }
        proof {
            let gbs = old(self).block_size();
            let b0 = bitmap_addr as nat * gbs;
            let gg = g as nat;
            let a = inode_addr_to_allocate as nat;
            let first = gg * old(self).sb.inodes_per_block_group + 1;
            let da = descriptor_addr(old(self).sb, gg) as int;
            let loc = old(self).inode_location(old(self).disk(), a) as int;
            let old_bm = block_at(old(self).disk(), gbs, bitmap_addr as nat);
            let bm = block_at(self.disk(), gbs, bitmap_addr as nat);
            assert((a - 1) as nat / old(self).sb.inodes_per_block_group as nat == gg && apart(b0 as int, gbs as int, da, 32)
                && apart(b0 as int, gbs as int, 1024, 236) && apart(da, 32, 1024, 236) && apart(b0 as int, gbs as int, loc, 128)
                ==> {
                &&& block_in_range(self.disk(), gbs, bitmap_addr as nat)
                &&& bit(bm, (a - first) as nat)
                &&& forall|j: nat| j < 8 * gbs && j != a - first ==> #[trigger] bit(bm, j) == bit(old_bm, j)
            }) by {
                if (a - 1) as nat / old(self).sb.inodes_per_block_group as nat == gg && apart(b0 as int, gbs as int, da, 32)
                    && apart(b0 as int, gbs as int, 1024, 236) && apart(da, 32, 1024, 236) && apart(b0 as int, gbs as int, loc, 128) {
                    lemma_kept(mid2, mid3, 1024, 1260, da, 32);
                    assert(stored_descriptor(mid3, old(self).sb, gg) == descriptor.values());
                    assert(descriptor.values()[2] == old_descriptor.values()[2]);
                    assert(fs3.inode_location(mid3, a) as int == loc);
                    lemma_kept(mid1, mid2, da, da + 32, b0 as int, gbs as int);
                    lemma_kept(mid2, mid3, 1024, 1260, b0 as int, gbs as int);
                    lemma_kept(mid3, self.disk(), loc, loc + 128, b0 as int, gbs as int);
                    assert(block_at(self.disk(), gbs, bitmap_addr as nat) =~= allocation_bitmap@);
                }
            }
            assert((a - 1) as nat / old(self).sb.inodes_per_block_group as nat == gg && apart(b0 as int, gbs as int, da, 32)
                && apart(b0 as int, gbs as int, 1024, 236) && apart(da, 32, 1024, 236) && apart(b0 as int, gbs as int, loc, 128)
                && apart(da, 32, loc, 128) ==> stored_inode(*self, a) == Seq::new(34, |_i: int| 0nat)) by {
                if (a - 1) as nat / old(self).sb.inodes_per_block_group as nat == gg && apart(b0 as int, gbs as int, da, 32)
                    && apart(b0 as int, gbs as int, 1024, 236) && apart(da, 32, 1024, 236) && apart(b0 as int, gbs as int, loc, 128)
                    && apart(da, 32, loc, 128) {
                    lemma_kept(mid2, mid3, 1024, 1260, da, 32);
                    assert(stored_descriptor(mid3, old(self).sb, gg) == descriptor.values());
                    assert(descriptor.values()[2] == old_descriptor.values()[2]);
                    assert(fs3.inode_location(mid3, a) as int == loc);
                    lemma_kept(mid3, self.disk(), loc, loc + 128, da, 32);
                    assert(stored_descriptor(self.disk(), self.sb, gg) == stored_descriptor(mid3, old(self).sb, gg));
                    assert(self.inode_location(self.disk(), a) as int == loc);
                    assert(zero_inode.values() =~= Seq::new(34, |_i: int| 0nat));
                }
            }
        }
        Some(inode_addr_to_allocate)
    }

    /// Allocates an inode in the first block group from
    /// `block_group_descriptor_index` on that has one free.
    pub fn alloc_inode_close_to(&mut self, block_group_descriptor_index: u32) -> (r: Option<u32>)
        requires
            old(self).wf(),
        ensures
            final(self).wf(),
            final(self).sb == (Ext2SuperBlock { unallocated_inodes: final(self).sb.unallocated_inodes, ..old(self).sb }),
            final(self).extended_sb == old(self).extended_sb,
            final(self).is_read_only() == old(self).is_read_only(),
            final(self).sb.unallocated_inodes <= old(self).sb.unallocated_inodes,
            old(self).sb.unallocated_inodes == 0 || old(self).is_read_only() ==> r is None,
            r matches Some(a) ==> a > 1 && final(self).sb.unallocated_inodes < old(self).sb.unallocated_inodes,
    {
        let mut g = block_group_descriptor_index;
        let n = self.get_number_of_block_groups();
        loop
            invariant
                self.wf(),
                self.sb == (Ext2SuperBlock { unallocated_inodes: self.sb.unallocated_inodes, ..old(self).sb }),
                self.extended_sb == old(self).extended_sb,
                self.is_read_only() == old(self).is_read_only(),
                self.sb.unallocated_inodes <= old(self).sb.unallocated_inodes,
                n == block_group_count(old(self).sb),
            decreases u32::MAX - g,
        {
            match self.alloc_inode(g) {
                Some(a) => {
                    return Some(a);
                },
                None => {},
            }
            if g >= n {
                return None;
            }
            g = g + 1;
        }
    }
}

/// The fields of inode `addr` as they are stored where its group's
/// descriptor on the disk of `fs` places it.
pub open spec fn stored_inode<D: IFile>(fs: Ext2FS<D>, addr: nat) -> Seq<nat> {
    let loc = fs.inode_location(fs.disk(), addr);
    decode_record(fs.disk().subrange(loc as int, loc + 128int), widths(Ext2RawInode::field_widths()))
}

/// An inode reads back as it was written: where `write_inode` wrote `values`
/// as inode `addr`, taking the file system from `fs0` to `fs1` (its ensures
/// for `Some`), and the descriptor of the inode's block group lies outside
/// the 128 bytes written, the inode stands at the same place and holds
/// `values`, which is what `read_inode` then gives.
pub proof fn lemma_inode_read_after_write<D: IFile>(fs0: Ext2FS<D>, fs1: Ext2FS<D>, addr: u32, values: Seq<nat>)
    requires
        fs0.wf(),
        addr >= 1,
        fs1.sb == fs0.sb,
        fs1.extended_sb == fs0.extended_sb,
        ({
            let loc = fs0.inode_location(fs0.disk(), addr as nat);
            &&& fs1.disk().len() == fs0.disk().len()
            &&& loc + 128 <= fs1.disk().len()
            &&& decode_record(fs1.disk().subrange(loc as int, loc + 128int), widths(Ext2RawInode::field_widths()))
                == values
            &&& forall|i: int|
                0 <= i < fs0.disk().len() && !(loc <= i < loc + 128) ==> #[trigger] fs1.disk()[i] == fs0.disk()[i]
        }),
        ({
            let g = (addr - 1) as nat / fs0.sb.inodes_per_block_group as nat;
            let d = descriptor_addr(fs0.sb, g);
            let loc = fs0.inode_location(fs0.disk(), addr as nat);
            &&& descriptor_readable(fs0.disk(), fs0.sb, g)
            &&& (d + 32 <= loc || loc + 128 <= d)
        }),
    ensures
        fs1.inode_location(fs1.disk(), addr as nat) == fs0.inode_location(fs0.disk(), addr as nat),
        stored_inode(fs1, addr as nat) == values,
{
    let g = (addr - 1) as nat / fs0.sb.inodes_per_block_group as nat;
    let d = descriptor_addr(fs0.sb, g);
    assert(fs1.disk().subrange(d as int, d + 32int) =~= fs0.disk().subrange(d as int, d + 32int));
    assert(stored_descriptor(fs1.disk(), fs1.sb, g) == stored_descriptor(fs0.disk(), fs0.sb, g));
}

} // verus!
