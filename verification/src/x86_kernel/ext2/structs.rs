//! The structures of ext2 on disk. Each is a little-endian record (see
//! [`record`](super::record)): `values` lists its fields in the order they are
//! stored and `field_widths` their sizes, and `pack` and `unpack` convert
//! between a structure and its bytes.
use crate::x86_kernel::ext2::record::{
    bytes_at, decode_record, decode_record_exec, encode_record, encode_record_exec, fits,
    lemma_decode_encode_record, lemma_decode_record_fits, lemma_encode_decode_record,
    lemma_pow256_values, lemma_record_size_append, lemma_record_size_repeat, lemma_widths_append, naturals, pow256, push_bytes, push_repeat, push_value, push_words,
    record_size, repeat, widths, words_at,
};
use vstd::prelude::*;

verus! {

/// The superblock: the geometry and the counters of the file system, at byte 1024 of the volume.
#[derive(Debug, Clone, Copy)]
pub struct Ext2SuperBlock {
    pub max_no_of_inodes: u32,
    pub max_no_of_blocks: u32,
    pub superuser_reserved_blocks: u32,
    pub unallocated_blocks: u32,
    pub unallocated_inodes: u32,
    pub superblock_block_number: u32,
    pub block_size_log2_minus_10: u32,
    pub fragment_size_log2_minus_10: u32,
    pub blocks_per_block_group: u32,
    pub fragments_per_block_group: u32,
    pub inodes_per_block_group: u32,
    pub last_mount_unix_timestamp: u32,
    pub last_written_unix_timestamp: u32,
    pub mounts_since_last_check: u16,
    pub mounts_allowed_before_check: u16,
    pub ext2_signature: u16,
    pub fs_state: u16,
    pub on_error: u16,
    pub minor_version: u16,
    pub last_check_unix_timestamp: u32,
    pub max_interval_between_checks: u32,
    pub os_id: u32,
    pub major_version: u32,
    pub uid_for_reserved_blocks: u16,
    pub gid_for_reserved_blocks: u16,
}

impl Ext2SuperBlock {
    /// The widths in bytes of the fields, in the order they are stored.
    pub open spec fn field_widths() -> Seq<u8> {
        repeat(4, 13) + repeat(2, 6) + repeat(4, 4) + repeat(2, 2)
    }

    /// The values of the fields, in the order they are stored.
    pub open spec fn values(&self) -> Seq<nat> {
        seq![
            self.max_no_of_inodes as nat,
            self.max_no_of_blocks as nat,
            self.superuser_reserved_blocks as nat,
            self.unallocated_blocks as nat,
            self.unallocated_inodes as nat,
            self.superblock_block_number as nat,
            self.block_size_log2_minus_10 as nat,
            self.fragment_size_log2_minus_10 as nat,
            self.blocks_per_block_group as nat,
            self.fragments_per_block_group as nat,
            self.inodes_per_block_group as nat,
            self.last_mount_unix_timestamp as nat,
            self.last_written_unix_timestamp as nat,
            self.mounts_since_last_check as nat,
            self.mounts_allowed_before_check as nat,
            self.ext2_signature as nat,
            self.fs_state as nat,
            self.on_error as nat,
            self.minor_version as nat,
            self.last_check_unix_timestamp as nat,
            self.max_interval_between_checks as nat,
            self.os_id as nat,
            self.major_version as nat,
            self.uid_for_reserved_blocks as nat,
            self.gid_for_reserved_blocks as nat,
        ]
    }

    fn field_widths_exec() -> (r: Vec<u8>)
        ensures
            r@ == Self::field_widths(),
            record_size(widths(r@)) == 84,
            forall|i: int| 0 <= i < r@.len() ==> #[trigger] r@[i] <= 8,
    {
        let mut r: Vec<u8> = Vec::new();
        push_repeat(&mut r, 4, 13);
        push_repeat(&mut r, 2, 6);
        push_repeat(&mut r, 4, 4);
        push_repeat(&mut r, 2, 2);
        assert(r@ =~= Self::field_widths());
        r
    }

    /// The structure takes 84 bytes on disk.
    pub proof fn lemma_size()
        ensures
            record_size(widths(Self::field_widths())) == 84,
    {
        lemma_record_size_repeat(4, 13);
        lemma_record_size_repeat(2, 6);
        lemma_widths_append(repeat(4, 13), repeat(2, 6));
        lemma_record_size_append(widths(repeat(4, 13)), widths(repeat(2, 6)));
        lemma_record_size_repeat(4, 4);
        lemma_widths_append(repeat(4, 13) + repeat(2, 6), repeat(4, 4));
        lemma_record_size_append(widths(repeat(4, 13) + repeat(2, 6)), widths(repeat(4, 4)));
        lemma_record_size_repeat(2, 2);
        lemma_widths_append(repeat(4, 13) + repeat(2, 6) + repeat(4, 4), repeat(2, 2));
        lemma_record_size_append(widths(repeat(4, 13) + repeat(2, 6) + repeat(4, 4)), widths(repeat(2, 2)));
    }

    /// Each field's value fits its width.
    pub proof fn lemma_fits(&self)
        ensures
            fits(self.values(), widths(Self::field_widths())),
    {
        lemma_pow256_values();
        let vs = self.values();
        let ws = widths(Self::field_widths());
        assert forall|i: int| 0 <= i < ws.len() implies #[trigger] vs[i] < pow256(ws[i]) by {}
    }

    /// The structure stored in `b`, which must be exactly 84 bytes long.
    pub fn unpack(b: &[u8]) -> (r: Option<Self>)
        ensures
            match r {
                Some(x) => b@.len() == 84 && x.values() == decode_record(b@, widths(Self::field_widths())),
                None => b@.len() != 84,
            },
    {
        if b.len() != 84 {
            return None;
        }
        let ws = Self::field_widths_exec();
        let v = decode_record_exec(b, ws.as_slice());
        proof {
            lemma_decode_record_fits(b@, widths(ws@));
            lemma_pow256_values();
            assert forall|i: int| 0 <= i < ws@.len() implies #[trigger] v@[i] < pow256(ws@[i] as nat) by {
                assert(naturals(v@)[i] == v@[i] as nat);
                assert(widths(ws@)[i] == ws@[i] as nat);
            }
        }
        assert(ws@[0] == 4);
        assert(ws@[1] == 4);
        assert(ws@[2] == 4);
        assert(ws@[3] == 4);
        assert(ws@[4] == 4);
        assert(ws@[5] == 4);
        assert(ws@[6] == 4);
        assert(ws@[7] == 4);
        assert(ws@[8] == 4);
        assert(ws@[9] == 4);
        assert(ws@[10] == 4);
        assert(ws@[11] == 4);
        assert(ws@[12] == 4);
        assert(ws@[13] == 2);
        assert(ws@[14] == 2);
        assert(ws@[15] == 2);
        assert(ws@[16] == 2);
        assert(ws@[17] == 2);
        assert(ws@[18] == 2);
        assert(ws@[19] == 4);
        assert(ws@[20] == 4);
        assert(ws@[21] == 4);
        assert(ws@[22] == 4);
        assert(ws@[23] == 2);
        assert(ws@[24] == 2);
        let x = Ext2SuperBlock {
            max_no_of_inodes: v[0] as u32,
            max_no_of_blocks: v[1] as u32,
            superuser_reserved_blocks: v[2] as u32,
            unallocated_blocks: v[3] as u32,
            unallocated_inodes: v[4] as u32,
            superblock_block_number: v[5] as u32,
            block_size_log2_minus_10: v[6] as u32,
            fragment_size_log2_minus_10: v[7] as u32,
            blocks_per_block_group: v[8] as u32,
            fragments_per_block_group: v[9] as u32,
            inodes_per_block_group: v[10] as u32,
            last_mount_unix_timestamp: v[11] as u32,
            last_written_unix_timestamp: v[12] as u32,
            mounts_since_last_check: v[13] as u16,
            mounts_allowed_before_check: v[14] as u16,
            ext2_signature: v[15] as u16,
            fs_state: v[16] as u16,
            on_error: v[17] as u16,
            minor_version: v[18] as u16,
            last_check_unix_timestamp: v[19] as u32,
            max_interval_between_checks: v[20] as u32,
            os_id: v[21] as u32,
            major_version: v[22] as u32,
            uid_for_reserved_blocks: v[23] as u16,
            gid_for_reserved_blocks: v[24] as u16,
        };
        assert(x.values() =~= naturals(v@));
        Some(x)
    }

    /// The 84 bytes of the structure.
    pub fn pack(&self) -> (r: Vec<u8>)
        ensures
            r@ == encode_record(self.values(), widths(Self::field_widths())),
            r@.len() == 84,
    {
        let mut v: Vec<u64> = Vec::new();
        push_value(&mut v, self.max_no_of_inodes as u64);
        push_value(&mut v, self.max_no_of_blocks as u64);
        push_value(&mut v, self.superuser_reserved_blocks as u64);
        push_value(&mut v, self.unallocated_blocks as u64);
        push_value(&mut v, self.unallocated_inodes as u64);
        push_value(&mut v, self.superblock_block_number as u64);
        push_value(&mut v, self.block_size_log2_minus_10 as u64);
        push_value(&mut v, self.fragment_size_log2_minus_10 as u64);
        push_value(&mut v, self.blocks_per_block_group as u64);
        push_value(&mut v, self.fragments_per_block_group as u64);
        push_value(&mut v, self.inodes_per_block_group as u64);
        push_value(&mut v, self.last_mount_unix_timestamp as u64);
        push_value(&mut v, self.last_written_unix_timestamp as u64);
        push_value(&mut v, self.mounts_since_last_check as u64);
        push_value(&mut v, self.mounts_allowed_before_check as u64);
        push_value(&mut v, self.ext2_signature as u64);
        push_value(&mut v, self.fs_state as u64);
        push_value(&mut v, self.on_error as u64);
        push_value(&mut v, self.minor_version as u64);
        push_value(&mut v, self.last_check_unix_timestamp as u64);
        push_value(&mut v, self.max_interval_between_checks as u64);
        push_value(&mut v, self.os_id as u64);
        push_value(&mut v, self.major_version as u64);
        push_value(&mut v, self.uid_for_reserved_blocks as u64);
        push_value(&mut v, self.gid_for_reserved_blocks as u64);
        assert(naturals(v@) =~= self.values());
        let ws = Self::field_widths_exec();
        let r = encode_record_exec(v.as_slice(), ws.as_slice());
        proof {
            self.lemma_fits();
            lemma_decode_encode_record(self.values(), widths(ws@));
        }
        r
    }

    /// What `pack` writes, `unpack` reads back.
    pub proof fn lemma_unpack_pack(x: Self)
        ensures
            decode_record(encode_record(x.values(), widths(Self::field_widths())), widths(Self::field_widths()))
                == x.values(),
    {
        x.lemma_fits();
        lemma_decode_encode_record(x.values(), widths(Self::field_widths()));
    }

    /// What `unpack` reads, `pack` writes back as the same bytes.
    pub proof fn lemma_pack_unpack(b: Seq<u8>)
        requires
            b.len() == 84,
        ensures
            encode_record(decode_record(b, widths(Self::field_widths())), widths(Self::field_widths())) == b,
    {
        Self::lemma_size();
        lemma_encode_decode_record(b, widths(Self::field_widths()));
    }
}

/// The part of the superblock that file systems of major version 1 and later add, right after the base superblock.
#[derive(Debug, Clone, Copy)]
pub struct Ext2ExtendedSuperblock {
    pub first_non_reserved_inode_in_fs: u32,
    pub inode_size: u16,
    pub block_group_of_this_superblock: u16,
    pub optional_features: u32,
    pub required_features: u32,
    pub write_features: u32,
    pub fs_id: [u8; 16],
    pub volume_name: [u8; 16],
    pub last_mounted: [u8; 64],
    pub compression_algorithm: u32,
    pub blocks_to_preallocate_for_files: u8,
    pub blocks_to_preallocate_for_directories: u8,
    pub _unused1: u16,
    pub journal_id: [u8; 16],
    pub journal_inode: u32,
    pub journal_device: u32,
    pub head_of_orphan_inode_list: u32,
}

impl Ext2ExtendedSuperblock {
    /// The widths in bytes of the fields, in the order they are stored.
    pub open spec fn field_widths() -> Seq<u8> {
        repeat(4, 1) + repeat(2, 2) + repeat(4, 3) + repeat(1, 96) + repeat(4, 1) + repeat(1, 2) + repeat(2, 1) + repeat(1, 16) + repeat(4, 3)
    }

    /// The values of the fields, in the order they are stored.
    pub open spec fn values(&self) -> Seq<nat> {
        seq![
            self.first_non_reserved_inode_in_fs as nat,
            self.inode_size as nat,
            self.block_group_of_this_superblock as nat,
            self.optional_features as nat,
            self.required_features as nat,
            self.write_features as nat,
        ] + self.fs_id@.map_values(|x: u8| x as nat) + self.volume_name@.map_values(|x: u8| x as nat) + self.last_mounted@.map_values(|x: u8| x as nat) + seq![
            self.compression_algorithm as nat,
            self.blocks_to_preallocate_for_files as nat,
            self.blocks_to_preallocate_for_directories as nat,
            self._unused1 as nat,
        ] + self.journal_id@.map_values(|x: u8| x as nat) + seq![
            self.journal_inode as nat,
            self.journal_device as nat,
            self.head_of_orphan_inode_list as nat,
        ]
    }

    fn field_widths_exec() -> (r: Vec<u8>)
        ensures
            r@ == Self::field_widths(),
            record_size(widths(r@)) == 152,
            forall|i: int| 0 <= i < r@.len() ==> #[trigger] r@[i] <= 8,
    {
        let mut r: Vec<u8> = Vec::new();
        push_repeat(&mut r, 4, 1);
        push_repeat(&mut r, 2, 2);
        push_repeat(&mut r, 4, 3);
        push_repeat(&mut r, 1, 96);
        push_repeat(&mut r, 4, 1);
        push_repeat(&mut r, 1, 2);
        push_repeat(&mut r, 2, 1);
        push_repeat(&mut r, 1, 16);
        push_repeat(&mut r, 4, 3);
        assert(r@ =~= Self::field_widths());
        r
    }

    /// The structure takes 152 bytes on disk.
    pub proof fn lemma_size()
        ensures
            record_size(widths(Self::field_widths())) == 152,
    {
        lemma_record_size_repeat(4, 1);
        lemma_record_size_repeat(2, 2);
        lemma_widths_append(repeat(4, 1), repeat(2, 2));
        lemma_record_size_append(widths(repeat(4, 1)), widths(repeat(2, 2)));
        lemma_record_size_repeat(4, 3);
        lemma_widths_append(repeat(4, 1) + repeat(2, 2), repeat(4, 3));
        lemma_record_size_append(widths(repeat(4, 1) + repeat(2, 2)), widths(repeat(4, 3)));
        lemma_record_size_repeat(1, 96);
        lemma_widths_append(repeat(4, 1) + repeat(2, 2) + repeat(4, 3), repeat(1, 96));
        lemma_record_size_append(widths(repeat(4, 1) + repeat(2, 2) + repeat(4, 3)), widths(repeat(1, 96)));
        lemma_record_size_repeat(4, 1);
        lemma_widths_append(repeat(4, 1) + repeat(2, 2) + repeat(4, 3) + repeat(1, 96), repeat(4, 1));
        lemma_record_size_append(widths(repeat(4, 1) + repeat(2, 2) + repeat(4, 3) + repeat(1, 96)), widths(repeat(4, 1)));
        lemma_record_size_repeat(1, 2);
        lemma_widths_append(repeat(4, 1) + repeat(2, 2) + repeat(4, 3) + repeat(1, 96) + repeat(4, 1), repeat(1, 2));
        lemma_record_size_append(widths(repeat(4, 1) + repeat(2, 2) + repeat(4, 3) + repeat(1, 96) + repeat(4, 1)), widths(repeat(1, 2)));
        lemma_record_size_repeat(2, 1);
        lemma_widths_append(repeat(4, 1) + repeat(2, 2) + repeat(4, 3) + repeat(1, 96) + repeat(4, 1) + repeat(1, 2), repeat(2, 1));
        lemma_record_size_append(widths(repeat(4, 1) + repeat(2, 2) + repeat(4, 3) + repeat(1, 96) + repeat(4, 1) + repeat(1, 2)), widths(repeat(2, 1)));
        lemma_record_size_repeat(1, 16);
        lemma_widths_append(repeat(4, 1) + repeat(2, 2) + repeat(4, 3) + repeat(1, 96) + repeat(4, 1) + repeat(1, 2) + repeat(2, 1), repeat(1, 16));
        lemma_record_size_append(widths(repeat(4, 1) + repeat(2, 2) + repeat(4, 3) + repeat(1, 96) + repeat(4, 1) + repeat(1, 2) + repeat(2, 1)), widths(repeat(1, 16)));
        lemma_record_size_repeat(4, 3);
        lemma_widths_append(repeat(4, 1) + repeat(2, 2) + repeat(4, 3) + repeat(1, 96) + repeat(4, 1) + repeat(1, 2) + repeat(2, 1) + repeat(1, 16), repeat(4, 3));
        lemma_record_size_append(widths(repeat(4, 1) + repeat(2, 2) + repeat(4, 3) + repeat(1, 96) + repeat(4, 1) + repeat(1, 2) + repeat(2, 1) + repeat(1, 16)), widths(repeat(4, 3)));
    }

    /// Each field's value fits its width.
    pub proof fn lemma_fits(&self)
        ensures
            fits(self.values(), widths(Self::field_widths())),
    {
        lemma_pow256_values();
        let vs = self.values();
        let ws = widths(Self::field_widths());
        assert forall|i: int| 0 <= i < ws.len() implies #[trigger] vs[i] < pow256(ws[i]) by {}
    }

    /// The structure stored in `b`, which must be exactly 152 bytes long.
    pub fn unpack(b: &[u8]) -> (r: Option<Self>)
        ensures
            match r {
                Some(x) => b@.len() == 152 && x.values() == decode_record(b@, widths(Self::field_widths())),
                None => b@.len() != 152,
            },
    {
        if b.len() != 152 {
            return None;
        }
        let ws = Self::field_widths_exec();
        let v = decode_record_exec(b, ws.as_slice());
        proof {
            lemma_decode_record_fits(b@, widths(ws@));
            lemma_pow256_values();
            assert forall|i: int| 0 <= i < ws@.len() implies #[trigger] v@[i] < pow256(ws@[i] as nat) by {
                assert(naturals(v@)[i] == v@[i] as nat);
                assert(widths(ws@)[i] == ws@[i] as nat);
            }
        }
        assert(ws@[0] == 4);
        assert(ws@[1] == 2);
        assert(ws@[2] == 2);
        assert(ws@[3] == 4);
        assert(ws@[4] == 4);
        assert(ws@[5] == 4);
        assert(forall|k: int| 6 <= k < 6 + 16 ==> #[trigger] v@[k] < 0x100) by {
            assert forall|k: int| 6 <= k < 6 + 16 implies #[trigger] v@[k] < 0x100 by {
                assert(ws@[k] == 1);
            }
        }
        let fs_id: [u8; 16] = bytes_at::<16>(v.as_slice(), 6);
        assert(forall|k: int| 22 <= k < 22 + 16 ==> #[trigger] v@[k] < 0x100) by {
            assert forall|k: int| 22 <= k < 22 + 16 implies #[trigger] v@[k] < 0x100 by {
                assert(ws@[k] == 1);
            }
        }
        let volume_name: [u8; 16] = bytes_at::<16>(v.as_slice(), 22);
        assert(forall|k: int| 38 <= k < 38 + 64 ==> #[trigger] v@[k] < 0x100) by {
            assert forall|k: int| 38 <= k < 38 + 64 implies #[trigger] v@[k] < 0x100 by {
                assert(ws@[k] == 1);
            }
        }
        let last_mounted: [u8; 64] = bytes_at::<64>(v.as_slice(), 38);
        assert(ws@[102] == 4);
        assert(ws@[103] == 1);
        assert(ws@[104] == 1);
        assert(ws@[105] == 2);
        assert(forall|k: int| 106 <= k < 106 + 16 ==> #[trigger] v@[k] < 0x100) by {
            assert forall|k: int| 106 <= k < 106 + 16 implies #[trigger] v@[k] < 0x100 by {
                assert(ws@[k] == 1);
            }
        }
        let journal_id: [u8; 16] = bytes_at::<16>(v.as_slice(), 106);
        assert(ws@[122] == 4);
        assert(ws@[123] == 4);
        assert(ws@[124] == 4);
        let x = Ext2ExtendedSuperblock {
            first_non_reserved_inode_in_fs: v[0] as u32,
            inode_size: v[1] as u16,
            block_group_of_this_superblock: v[2] as u16,
            optional_features: v[3] as u32,
            required_features: v[4] as u32,
            write_features: v[5] as u32,
            fs_id,
            volume_name,
            last_mounted,
            compression_algorithm: v[102] as u32,
            blocks_to_preallocate_for_files: v[103] as u8,
            blocks_to_preallocate_for_directories: v[104] as u8,
            _unused1: v[105] as u16,
            journal_id,
            journal_inode: v[122] as u32,
            journal_device: v[123] as u32,
            head_of_orphan_inode_list: v[124] as u32,
        };
        assert(x.values() =~= naturals(v@));
        Some(x)
    }

    /// The 152 bytes of the structure.
    pub fn pack(&self) -> (r: Vec<u8>)
        ensures
            r@ == encode_record(self.values(), widths(Self::field_widths())),
            r@.len() == 152,
    {
        let mut v: Vec<u64> = Vec::new();
        push_value(&mut v, self.first_non_reserved_inode_in_fs as u64);
        push_value(&mut v, self.inode_size as u64);
        push_value(&mut v, self.block_group_of_this_superblock as u64);
        push_value(&mut v, self.optional_features as u64);
        push_value(&mut v, self.required_features as u64);
        push_value(&mut v, self.write_features as u64);
        push_bytes(&mut v, self.fs_id.as_slice());
        push_bytes(&mut v, self.volume_name.as_slice());
        push_bytes(&mut v, self.last_mounted.as_slice());
        push_value(&mut v, self.compression_algorithm as u64);
        push_value(&mut v, self.blocks_to_preallocate_for_files as u64);
        push_value(&mut v, self.blocks_to_preallocate_for_directories as u64);
        push_value(&mut v, self._unused1 as u64);
        push_bytes(&mut v, self.journal_id.as_slice());
        push_value(&mut v, self.journal_inode as u64);
        push_value(&mut v, self.journal_device as u64);
        push_value(&mut v, self.head_of_orphan_inode_list as u64);
        assert(naturals(v@) =~= self.values());
        let ws = Self::field_widths_exec();
        let r = encode_record_exec(v.as_slice(), ws.as_slice());
        proof {
            self.lemma_fits();
            lemma_decode_encode_record(self.values(), widths(ws@));
        }
        r
    }

    /// What `pack` writes, `unpack` reads back.
    pub proof fn lemma_unpack_pack(x: Self)
        ensures
            decode_record(encode_record(x.values(), widths(Self::field_widths())), widths(Self::field_widths()))
                == x.values(),
    {
        x.lemma_fits();
        lemma_decode_encode_record(x.values(), widths(Self::field_widths()));
    }

    /// What `unpack` reads, `pack` writes back as the same bytes.
    pub proof fn lemma_pack_unpack(b: Seq<u8>)
        requires
            b.len() == 152,
        ensures
            encode_record(decode_record(b, widths(Self::field_widths())), widths(Self::field_widths())) == b,
    {
        Self::lemma_size();
        lemma_encode_decode_record(b, widths(Self::field_widths()));
    }
}

/// The descriptor of a block group: where its bitmaps and inode table are, and its counters.
#[derive(Debug, Clone, Copy)]
pub struct Ext2BlockGroupDescriptor {
    pub block_addr_for_block_usage_bitmap: u32,
    pub block_addr_for_inode_usage_bitmap: u32,
    pub block_addr_for_inode_table: u32,
    pub unallocated_blocks_in_group: u16,
    pub unallocated_inodes_in_group: u16,
    pub directories_in_group: u16,
    pub _unused1: u64,
    pub _unused2: u32,
    pub _unused3: u16,
}

impl Ext2BlockGroupDescriptor {
    /// The widths in bytes of the fields, in the order they are stored.
    pub open spec fn field_widths() -> Seq<u8> {
        repeat(4, 3) + repeat(2, 3) + repeat(8, 1) + repeat(4, 1) + repeat(2, 1)
    }

    /// The values of the fields, in the order they are stored.
    pub open spec fn values(&self) -> Seq<nat> {
        seq![
            self.block_addr_for_block_usage_bitmap as nat,
            self.block_addr_for_inode_usage_bitmap as nat,
            self.block_addr_for_inode_table as nat,
            self.unallocated_blocks_in_group as nat,
            self.unallocated_inodes_in_group as nat,
            self.directories_in_group as nat,
            self._unused1 as nat,
            self._unused2 as nat,
            self._unused3 as nat,
        ]
    }

    fn field_widths_exec() -> (r: Vec<u8>)
        ensures
            r@ == Self::field_widths(),
            record_size(widths(r@)) == 32,
            forall|i: int| 0 <= i < r@.len() ==> #[trigger] r@[i] <= 8,
    {
        let mut r: Vec<u8> = Vec::new();
        push_repeat(&mut r, 4, 3);
        push_repeat(&mut r, 2, 3);
        push_repeat(&mut r, 8, 1);
        push_repeat(&mut r, 4, 1);
        push_repeat(&mut r, 2, 1);
        assert(r@ =~= Self::field_widths());
        r
    }

    /// The structure takes 32 bytes on disk.
    pub proof fn lemma_size()
        ensures
            record_size(widths(Self::field_widths())) == 32,
    {
        lemma_record_size_repeat(4, 3);
        lemma_record_size_repeat(2, 3);
        lemma_widths_append(repeat(4, 3), repeat(2, 3));
        lemma_record_size_append(widths(repeat(4, 3)), widths(repeat(2, 3)));
        lemma_record_size_repeat(8, 1);
        lemma_widths_append(repeat(4, 3) + repeat(2, 3), repeat(8, 1));
        lemma_record_size_append(widths(repeat(4, 3) + repeat(2, 3)), widths(repeat(8, 1)));
        lemma_record_size_repeat(4, 1);
        lemma_widths_append(repeat(4, 3) + repeat(2, 3) + repeat(8, 1), repeat(4, 1));
        lemma_record_size_append(widths(repeat(4, 3) + repeat(2, 3) + repeat(8, 1)), widths(repeat(4, 1)));
        lemma_record_size_repeat(2, 1);
        lemma_widths_append(repeat(4, 3) + repeat(2, 3) + repeat(8, 1) + repeat(4, 1), repeat(2, 1));
        lemma_record_size_append(widths(repeat(4, 3) + repeat(2, 3) + repeat(8, 1) + repeat(4, 1)), widths(repeat(2, 1)));
    }

    /// Each field's value fits its width.
    pub proof fn lemma_fits(&self)
        ensures
            fits(self.values(), widths(Self::field_widths())),
    {
        lemma_pow256_values();
        let vs = self.values();
        let ws = widths(Self::field_widths());
        assert forall|i: int| 0 <= i < ws.len() implies #[trigger] vs[i] < pow256(ws[i]) by {}
    }

    /// The structure stored in `b`, which must be exactly 32 bytes long.
    pub fn unpack(b: &[u8]) -> (r: Option<Self>)
        ensures
            match r {
                Some(x) => b@.len() == 32 && x.values() == decode_record(b@, widths(Self::field_widths())),
                None => b@.len() != 32,
            },
    {
        if b.len() != 32 {
            return None;
        }
        let ws = Self::field_widths_exec();
        let v = decode_record_exec(b, ws.as_slice());
        proof {
            lemma_decode_record_fits(b@, widths(ws@));
            lemma_pow256_values();
            assert forall|i: int| 0 <= i < ws@.len() implies #[trigger] v@[i] < pow256(ws@[i] as nat) by {
                assert(naturals(v@)[i] == v@[i] as nat);
                assert(widths(ws@)[i] == ws@[i] as nat);
            }
        }
        assert(ws@[0] == 4);
        assert(ws@[1] == 4);
        assert(ws@[2] == 4);
        assert(ws@[3] == 2);
        assert(ws@[4] == 2);
        assert(ws@[5] == 2);
        assert(ws@[6] == 8);
        assert(ws@[7] == 4);
        assert(ws@[8] == 2);
        let x = Ext2BlockGroupDescriptor {
            block_addr_for_block_usage_bitmap: v[0] as u32,
            block_addr_for_inode_usage_bitmap: v[1] as u32,
            block_addr_for_inode_table: v[2] as u32,
            unallocated_blocks_in_group: v[3] as u16,
            unallocated_inodes_in_group: v[4] as u16,
            directories_in_group: v[5] as u16,
            _unused1: v[6] as u64,
            _unused2: v[7] as u32,
            _unused3: v[8] as u16,
        };
        assert(x.values() =~= naturals(v@));
        Some(x)
    }

    /// The 32 bytes of the structure.
    pub fn pack(&self) -> (r: Vec<u8>)
        ensures
            r@ == encode_record(self.values(), widths(Self::field_widths())),
            r@.len() == 32,
    {
        let mut v: Vec<u64> = Vec::new();
        push_value(&mut v, self.block_addr_for_block_usage_bitmap as u64);
        push_value(&mut v, self.block_addr_for_inode_usage_bitmap as u64);
        push_value(&mut v, self.block_addr_for_inode_table as u64);
        push_value(&mut v, self.unallocated_blocks_in_group as u64);
        push_value(&mut v, self.unallocated_inodes_in_group as u64);
        push_value(&mut v, self.directories_in_group as u64);
        push_value(&mut v, self._unused1 as u64);
        push_value(&mut v, self._unused2 as u64);
        push_value(&mut v, self._unused3 as u64);
        assert(naturals(v@) =~= self.values());
        let ws = Self::field_widths_exec();
        let r = encode_record_exec(v.as_slice(), ws.as_slice());
        proof {
            self.lemma_fits();
            lemma_decode_encode_record(self.values(), widths(ws@));
        }
        r
    }

    /// What `pack` writes, `unpack` reads back.
    pub proof fn lemma_unpack_pack(x: Self)
        ensures
            decode_record(encode_record(x.values(), widths(Self::field_widths())), widths(Self::field_widths()))
                == x.values(),
    {
        x.lemma_fits();
        lemma_decode_encode_record(x.values(), widths(Self::field_widths()));
    }

    /// What `unpack` reads, `pack` writes back as the same bytes.
    pub proof fn lemma_pack_unpack(b: Seq<u8>)
        requires
            b.len() == 32,
        ensures
            encode_record(decode_record(b, widths(Self::field_widths())), widths(Self::field_widths())) == b,
    {
        Self::lemma_size();
        lemma_encode_decode_record(b, widths(Self::field_widths()));
    }
}

/// An inode as stored in an inode table: type, size and where the data blocks are.
#[derive(Debug, Clone, Copy)]
pub struct Ext2RawInode {
    pub type_and_perm: u16,
    pub user_id: u16,
    pub low32_size: u32,
    pub last_access_unix_timestamp: u32,
    pub creation_unix_timestamp: u32,
    pub last_modif_unix_timestamp: u32,
    pub deletion_unix_timestamp: u32,
    pub group_id: u16,
    pub hard_links_to_inode: u16,
    pub disk_sectors_used: u32,
    pub flags: u32,
    pub os_value_1: u32,
    pub direct_block_pointers: [u32; 12],
    pub singly_indirect_block_pointer: u32,
    pub doubly_indirect_block_pointer: u32,
    pub triply_indirect_block_pointer: u32,
    pub generation_number: u32,
    pub ext2_majorv1_extended_attribute_block: u32,
    pub ext2_majorv1_upper32_size: u32,
    pub block_addr_of_fragment: u32,
    pub os_value_2: [u32; 3],
}

impl Ext2RawInode {
    /// The widths in bytes of the fields, in the order they are stored.
    pub open spec fn field_widths() -> Seq<u8> {
        repeat(2, 2) + repeat(4, 5) + repeat(2, 2) + repeat(4, 25)
    }

    /// The values of the fields, in the order they are stored.
    pub open spec fn values(&self) -> Seq<nat> {
        seq![
            self.type_and_perm as nat,
            self.user_id as nat,
            self.low32_size as nat,
            self.last_access_unix_timestamp as nat,
            self.creation_unix_timestamp as nat,
            self.last_modif_unix_timestamp as nat,
            self.deletion_unix_timestamp as nat,
            self.group_id as nat,
            self.hard_links_to_inode as nat,
            self.disk_sectors_used as nat,
            self.flags as nat,
            self.os_value_1 as nat,
        ] + self.direct_block_pointers@.map_values(|x: u32| x as nat) + seq![
            self.singly_indirect_block_pointer as nat,
            self.doubly_indirect_block_pointer as nat,
            self.triply_indirect_block_pointer as nat,
            self.generation_number as nat,
            self.ext2_majorv1_extended_attribute_block as nat,
            self.ext2_majorv1_upper32_size as nat,
            self.block_addr_of_fragment as nat,
        ] + self.os_value_2@.map_values(|x: u32| x as nat)
    }

    fn field_widths_exec() -> (r: Vec<u8>)
        ensures
            r@ == Self::field_widths(),
            record_size(widths(r@)) == 128,
            forall|i: int| 0 <= i < r@.len() ==> #[trigger] r@[i] <= 8,
    {
        let mut r: Vec<u8> = Vec::new();
        push_repeat(&mut r, 2, 2);
        push_repeat(&mut r, 4, 5);
        push_repeat(&mut r, 2, 2);
        push_repeat(&mut r, 4, 25);
        assert(r@ =~= Self::field_widths());
        r
    }

    /// The structure takes 128 bytes on disk.
    pub proof fn lemma_size()
        ensures
            record_size(widths(Self::field_widths())) == 128,
    {
        lemma_record_size_repeat(2, 2);
        lemma_record_size_repeat(4, 5);
        lemma_widths_append(repeat(2, 2), repeat(4, 5));
        lemma_record_size_append(widths(repeat(2, 2)), widths(repeat(4, 5)));
        lemma_record_size_repeat(2, 2);
        lemma_widths_append(repeat(2, 2) + repeat(4, 5), repeat(2, 2));
        lemma_record_size_append(widths(repeat(2, 2) + repeat(4, 5)), widths(repeat(2, 2)));
        lemma_record_size_repeat(4, 25);
        lemma_widths_append(repeat(2, 2) + repeat(4, 5) + repeat(2, 2), repeat(4, 25));
        lemma_record_size_append(widths(repeat(2, 2) + repeat(4, 5) + repeat(2, 2)), widths(repeat(4, 25)));
    }

    /// Each field's value fits its width.
    pub proof fn lemma_fits(&self)
        ensures
            fits(self.values(), widths(Self::field_widths())),
    {
        lemma_pow256_values();
        let vs = self.values();
        let ws = widths(Self::field_widths());
        assert forall|i: int| 0 <= i < ws.len() implies #[trigger] vs[i] < pow256(ws[i]) by {}
    }

    /// The structure stored in `b`, which must be exactly 128 bytes long.
    pub fn unpack(b: &[u8]) -> (r: Option<Self>)
        ensures
            match r {
                Some(x) => b@.len() == 128 && x.values() == decode_record(b@, widths(Self::field_widths())),
                None => b@.len() != 128,
            },
    {
        if b.len() != 128 {
            return None;
        }
        let ws = Self::field_widths_exec();
        let v = decode_record_exec(b, ws.as_slice());
        proof {
            lemma_decode_record_fits(b@, widths(ws@));
            lemma_pow256_values();
            assert forall|i: int| 0 <= i < ws@.len() implies #[trigger] v@[i] < pow256(ws@[i] as nat) by {
                assert(naturals(v@)[i] == v@[i] as nat);
                assert(widths(ws@)[i] == ws@[i] as nat);
            }
        }
        assert(ws@[0] == 2);
        assert(ws@[1] == 2);
        assert(ws@[2] == 4);
        assert(ws@[3] == 4);
        assert(ws@[4] == 4);
        assert(ws@[5] == 4);
        assert(ws@[6] == 4);
        assert(ws@[7] == 2);
        assert(ws@[8] == 2);
        assert(ws@[9] == 4);
        assert(ws@[10] == 4);
        assert(ws@[11] == 4);
        assert(forall|k: int| 12 <= k < 12 + 12 ==> #[trigger] v@[k] < 0x1_0000_0000) by {
            assert forall|k: int| 12 <= k < 12 + 12 implies #[trigger] v@[k] < 0x1_0000_0000 by {
                assert(ws@[k] == 4);
            }
        }
        let direct_block_pointers: [u32; 12] = words_at::<12>(v.as_slice(), 12);
        assert(ws@[24] == 4);
        assert(ws@[25] == 4);
        assert(ws@[26] == 4);
        assert(ws@[27] == 4);
        assert(ws@[28] == 4);
        assert(ws@[29] == 4);
        assert(ws@[30] == 4);
        assert(forall|k: int| 31 <= k < 31 + 3 ==> #[trigger] v@[k] < 0x1_0000_0000) by {
            assert forall|k: int| 31 <= k < 31 + 3 implies #[trigger] v@[k] < 0x1_0000_0000 by {
                assert(ws@[k] == 4);
            }
        }
        let os_value_2: [u32; 3] = words_at::<3>(v.as_slice(), 31);
        let x = Ext2RawInode {
            type_and_perm: v[0] as u16,
            user_id: v[1] as u16,
            low32_size: v[2] as u32,
            last_access_unix_timestamp: v[3] as u32,
            creation_unix_timestamp: v[4] as u32,
            last_modif_unix_timestamp: v[5] as u32,
            deletion_unix_timestamp: v[6] as u32,
            group_id: v[7] as u16,
            hard_links_to_inode: v[8] as u16,
            disk_sectors_used: v[9] as u32,
            flags: v[10] as u32,
            os_value_1: v[11] as u32,
            direct_block_pointers,
            singly_indirect_block_pointer: v[24] as u32,
            doubly_indirect_block_pointer: v[25] as u32,
            triply_indirect_block_pointer: v[26] as u32,
            generation_number: v[27] as u32,
            ext2_majorv1_extended_attribute_block: v[28] as u32,
            ext2_majorv1_upper32_size: v[29] as u32,
            block_addr_of_fragment: v[30] as u32,
            os_value_2,
        };
        assert(x.values() =~= naturals(v@));
        Some(x)
    }

    /// The 128 bytes of the structure.
    pub fn pack(&self) -> (r: Vec<u8>)
        ensures
            r@ == encode_record(self.values(), widths(Self::field_widths())),
            r@.len() == 128,
    {
        let mut v: Vec<u64> = Vec::new();
        push_value(&mut v, self.type_and_perm as u64);
        push_value(&mut v, self.user_id as u64);
        push_value(&mut v, self.low32_size as u64);
        push_value(&mut v, self.last_access_unix_timestamp as u64);
        push_value(&mut v, self.creation_unix_timestamp as u64);
        push_value(&mut v, self.last_modif_unix_timestamp as u64);
        push_value(&mut v, self.deletion_unix_timestamp as u64);
        push_value(&mut v, self.group_id as u64);
        push_value(&mut v, self.hard_links_to_inode as u64);
        push_value(&mut v, self.disk_sectors_used as u64);
        push_value(&mut v, self.flags as u64);
        push_value(&mut v, self.os_value_1 as u64);
        push_words(&mut v, self.direct_block_pointers.as_slice());
        push_value(&mut v, self.singly_indirect_block_pointer as u64);
        push_value(&mut v, self.doubly_indirect_block_pointer as u64);
        push_value(&mut v, self.triply_indirect_block_pointer as u64);
        push_value(&mut v, self.generation_number as u64);
        push_value(&mut v, self.ext2_majorv1_extended_attribute_block as u64);
        push_value(&mut v, self.ext2_majorv1_upper32_size as u64);
        push_value(&mut v, self.block_addr_of_fragment as u64);
        push_words(&mut v, self.os_value_2.as_slice());
        assert(naturals(v@) =~= self.values());
        let ws = Self::field_widths_exec();
        let r = encode_record_exec(v.as_slice(), ws.as_slice());
        proof {
            self.lemma_fits();
            lemma_decode_encode_record(self.values(), widths(ws@));
        }
        r
    }

    /// What `pack` writes, `unpack` reads back.
    pub proof fn lemma_unpack_pack(x: Self)
        ensures
            decode_record(encode_record(x.values(), widths(Self::field_widths())), widths(Self::field_widths()))
                == x.values(),
    {
        x.lemma_fits();
        lemma_decode_encode_record(x.values(), widths(Self::field_widths()));
    }

    /// What `unpack` reads, `pack` writes back as the same bytes.
    pub proof fn lemma_pack_unpack(b: Seq<u8>)
        requires
            b.len() == 128,
        ensures
            encode_record(decode_record(b, widths(Self::field_widths())), widths(Self::field_widths())) == b,
    {
        Self::lemma_size();
        lemma_encode_decode_record(b, widths(Self::field_widths()));
    }
}

/// The header of a directory entry; the name follows it.
#[derive(Debug, Clone, Copy)]
pub struct Ext2DirectoryEntryHeader {
    pub inode_addr: u32,
    pub entry_size: u16,
    pub name_length_low8: u8,
    pub entry_type: u8,
}

impl Ext2DirectoryEntryHeader {
    /// The widths in bytes of the fields, in the order they are stored.
    pub open spec fn field_widths() -> Seq<u8> {
        repeat(4, 1) + repeat(2, 1) + repeat(1, 2)
    }

    /// The values of the fields, in the order they are stored.
    pub open spec fn values(&self) -> Seq<nat> {
        seq![
            self.inode_addr as nat,
            self.entry_size as nat,
            self.name_length_low8 as nat,
            self.entry_type as nat,
        ]
    }

    fn field_widths_exec() -> (r: Vec<u8>)
        ensures
            r@ == Self::field_widths(),
            record_size(widths(r@)) == 8,
            forall|i: int| 0 <= i < r@.len() ==> #[trigger] r@[i] <= 8,
    {
        let mut r: Vec<u8> = Vec::new();
        push_repeat(&mut r, 4, 1);
        push_repeat(&mut r, 2, 1);
        push_repeat(&mut r, 1, 2);
        assert(r@ =~= Self::field_widths());
        r
    }

    /// The structure takes 8 bytes on disk.
    pub proof fn lemma_size()
        ensures
            record_size(widths(Self::field_widths())) == 8,
    {
        lemma_record_size_repeat(4, 1);
        lemma_record_size_repeat(2, 1);
        lemma_widths_append(repeat(4, 1), repeat(2, 1));
        lemma_record_size_append(widths(repeat(4, 1)), widths(repeat(2, 1)));
        lemma_record_size_repeat(1, 2);
        lemma_widths_append(repeat(4, 1) + repeat(2, 1), repeat(1, 2));
        lemma_record_size_append(widths(repeat(4, 1) + repeat(2, 1)), widths(repeat(1, 2)));
    }

    /// Each field's value fits its width.
    pub proof fn lemma_fits(&self)
        ensures
            fits(self.values(), widths(Self::field_widths())),
    {
        lemma_pow256_values();
        let vs = self.values();
        let ws = widths(Self::field_widths());
        assert forall|i: int| 0 <= i < ws.len() implies #[trigger] vs[i] < pow256(ws[i]) by {}
    }

    /// The structure stored in `b`, which must be exactly 8 bytes long.
    pub fn unpack(b: &[u8]) -> (r: Option<Self>)
        ensures
            match r {
                Some(x) => b@.len() == 8 && x.values() == decode_record(b@, widths(Self::field_widths())),
                None => b@.len() != 8,
            },
    {
        if b.len() != 8 {
            return None;
        }
        let ws = Self::field_widths_exec();
        let v = decode_record_exec(b, ws.as_slice());
        proof {
            lemma_decode_record_fits(b@, widths(ws@));
            lemma_pow256_values();
            assert forall|i: int| 0 <= i < ws@.len() implies #[trigger] v@[i] < pow256(ws@[i] as nat) by {
                assert(naturals(v@)[i] == v@[i] as nat);
                assert(widths(ws@)[i] == ws@[i] as nat);
            }
        }
        assert(ws@[0] == 4);
        assert(ws@[1] == 2);
        assert(ws@[2] == 1);
        assert(ws@[3] == 1);
        let x = Ext2DirectoryEntryHeader {
            inode_addr: v[0] as u32,
            entry_size: v[1] as u16,
            name_length_low8: v[2] as u8,
            entry_type: v[3] as u8,
        };
        assert(x.values() =~= naturals(v@));
        Some(x)
    }

    /// The 8 bytes of the structure.
    pub fn pack(&self) -> (r: Vec<u8>)
        ensures
            r@ == encode_record(self.values(), widths(Self::field_widths())),
            r@.len() == 8,
    {
        let mut v: Vec<u64> = Vec::new();
        push_value(&mut v, self.inode_addr as u64);
        push_value(&mut v, self.entry_size as u64);
        push_value(&mut v, self.name_length_low8 as u64);
        push_value(&mut v, self.entry_type as u64);
        assert(naturals(v@) =~= self.values());
        let ws = Self::field_widths_exec();
        let r = encode_record_exec(v.as_slice(), ws.as_slice());
        proof {
            self.lemma_fits();
            lemma_decode_encode_record(self.values(), widths(ws@));
        }
        r
    }

    /// What `pack` writes, `unpack` reads back.
    pub proof fn lemma_unpack_pack(x: Self)
        ensures
            decode_record(encode_record(x.values(), widths(Self::field_widths())), widths(Self::field_widths()))
                == x.values(),
    {
        x.lemma_fits();
        lemma_decode_encode_record(x.values(), widths(Self::field_widths()));
    }

    /// What `unpack` reads, `pack` writes back as the same bytes.
    pub proof fn lemma_pack_unpack(b: Seq<u8>)
        requires
            b.len() == 8,
        ensures
            encode_record(decode_record(b, widths(Self::field_widths())), widths(Self::field_widths())) == b,
    {
        Self::lemma_size();
        lemma_encode_decode_record(b, widths(Self::field_widths()));
    }
}

impl Default for Ext2RawInode {
    /// The inode with every field 0.
    fn default() -> (r: Self)
        ensures
            forall|i: int| 0 <= i < r.values().len() ==> #[trigger] r.values()[i] == 0,
            r.values().len() == 34,
    {
        let r = Ext2RawInode {
            type_and_perm: 0,
            user_id: 0,
            low32_size: 0,
            last_access_unix_timestamp: 0,
            creation_unix_timestamp: 0,
            last_modif_unix_timestamp: 0,
            deletion_unix_timestamp: 0,
            group_id: 0,
            hard_links_to_inode: 0,
            disk_sectors_used: 0,
            flags: 0,
            os_value_1: 0,
            direct_block_pointers: [0; 12],
            singly_indirect_block_pointer: 0,
            doubly_indirect_block_pointer: 0,
            triply_indirect_block_pointer: 0,
            generation_number: 0,
            ext2_majorv1_extended_attribute_block: 0,
            ext2_majorv1_upper32_size: 0,
            block_addr_of_fragment: 0,
            os_value_2: [0; 3],
        };
        r
    }
}

impl Default for Ext2DirectoryEntryHeader {
    /// An entry for no inode whose size is its header's.
    fn default() -> (r: Self)
        ensures
            r.inode_addr == 0,
            r.entry_size == 8,
            r.name_length_low8 == 0,
            r.entry_type == 0,
    {
        Ext2DirectoryEntryHeader { inode_addr: 0, entry_size: 8, name_length_low8: 0, entry_type: 0 }
    }
}

} // verus!
