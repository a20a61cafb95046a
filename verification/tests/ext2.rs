use ron::kernel::vfs::NodeType;
use ron::x86_kernel::ext2::fs::Ext2FS;
use ron::x86_kernel::ext2::node::{Ext2File, Ext2Folder};
use ron::x86_kernel::ext2::structs::{
    Ext2BlockGroupDescriptor, Ext2DirectoryEntryHeader, Ext2ExtendedSuperblock, Ext2RawInode, Ext2SuperBlock,
};
use ron::x86_kernel::partitions::{MBRPartitionFile, MBRPartitionNumber};
use ron::x86_kernel::vfs::{IFile, Node};

struct MemDisk {
    data: Vec<u8>,
}

impl IFile for MemDisk {
    fn data(&self) -> vstd::seq::Seq<u8> {
        unreachable!()
    }

    fn read(&self, offset: usize, len: usize) -> Option<Vec<u8>> {
        if offset.checked_add(len)? > self.data.len() {
            return None;
        }
        Some(self.data[offset..offset + len].to_vec())
    }

    fn write(&mut self, offset: usize, data: &[u8]) -> Option<usize> {
        if offset.checked_add(data.len())? > self.data.len() {
            return None;
        }
        self.data[offset..offset + data.len()].copy_from_slice(data);
        Some(data.len())
    }

    fn get_size(&self) -> usize {
        self.data.len()
    }

    fn resize(&mut self, _new_size: usize) -> Option<()> {
        None
    }
}

fn superblock() -> Ext2SuperBlock {
    Ext2SuperBlock {
        max_no_of_inodes: 16,
        max_no_of_blocks: 64,
        superuser_reserved_blocks: 0,
        unallocated_blocks: 50,
        unallocated_inodes: 14,
        superblock_block_number: 1,
        block_size_log2_minus_10: 0,
        fragment_size_log2_minus_10: 0,
        blocks_per_block_group: 8192,
        fragments_per_block_group: 8192,
        inodes_per_block_group: 16,
        last_mount_unix_timestamp: 0,
        last_written_unix_timestamp: 0,
        mounts_since_last_check: 0,
        mounts_allowed_before_check: 0,
        ext2_signature: 0xef53,
        fs_state: 1,
        on_error: 1,
        minor_version: 0,
        last_check_unix_timestamp: 0,
        max_interval_between_checks: 0,
        os_id: 0,
        major_version: 0,
        uid_for_reserved_blocks: 0,
        gid_for_reserved_blocks: 0,
    }
}

fn zero_inode() -> Ext2RawInode {
    Ext2RawInode::default()
}

/// A file system of 64 blocks of 1024 bytes in one block group: the block
/// bitmap in block 3, the inode bitmap in block 4, the inode table in blocks
/// 5 and 6; blocks 3 to 6 and inodes 1 and 2 in use. Inode 2 is a folder
/// whose data is block 7 (also in use).
fn image() -> Vec<u8> {
    let mut disk = vec![0u8; 64 * 1024];
    let sb = superblock().pack();
    disk[1024..1024 + 84].copy_from_slice(&sb);
    let d = Ext2BlockGroupDescriptor {
        block_addr_for_block_usage_bitmap: 3,
        block_addr_for_inode_usage_bitmap: 4,
        block_addr_for_inode_table: 5,
        unallocated_blocks_in_group: 50,
        unallocated_inodes_in_group: 14,
        directories_in_group: 1,
        _unused1: 0,
        _unused2: 0,
        _unused3: 0,
    };
    disk[2048..2048 + 32].copy_from_slice(&d.pack());
    // blocks 3, 4, 5, 6, 7 are bits 0..4 (the first group starts after 3 special blocks)
    disk[3 * 1024] = 0b0001_1111;
    // inodes 1 and 2
    disk[4 * 1024] = 0b0000_0011;
    let mut root = zero_inode();
    root.type_and_perm = 0x4000 | 0x1ff;
    root.hard_links_to_inode = 1;
    root.low32_size = 1024;
    root.direct_block_pointers[0] = 7;
    let at = 5 * 1024 + 128;
    disk[at..at + 128].copy_from_slice(&root.pack());
    // one entry in the folder: "hello" for inode 2, spanning the block
    let e = Ext2DirectoryEntryHeader { inode_addr: 2, entry_size: 1024, name_length_low8: 5, entry_type: 2 };
    disk[7 * 1024..7 * 1024 + 8].copy_from_slice(&e.pack());
    disk[7 * 1024 + 8..7 * 1024 + 13].copy_from_slice(b"hello");
    disk
}

fn mount() -> Ext2FS<MemDisk> {
    Ext2FS::new(MemDisk { data: image() }, false).unwrap()
}

#[test]
fn superblock_pack_unpack_round_trip() {
    let sb = superblock();
    let bytes = sb.pack();
    assert_eq!(bytes.len(), 84);
    assert_eq!(&bytes[0..4], &[16, 0, 0, 0]);
    assert_eq!(&bytes[56..58], &[0x53, 0xef]);
    let back = Ext2SuperBlock::unpack(&bytes).unwrap();
    assert_eq!(back.pack(), bytes);
    assert_eq!(back.ext2_signature, 0xef53);
    assert!(Ext2SuperBlock::unpack(&bytes[..83]).is_none());
}

#[test]
fn structures_have_their_sizes() {
    assert_eq!(zero_inode().pack().len(), 128);
    assert_eq!(Ext2DirectoryEntryHeader::default().pack().len(), 8);
    assert_eq!(Ext2DirectoryEntryHeader::default().entry_size, 8);
    let e = Ext2ExtendedSuperblock::unpack(&[0u8; 152]).unwrap();
    assert_eq!(e.pack(), vec![0u8; 152]);
    assert_eq!(Ext2FS::<MemDisk>::get_super_block_size(), 84);
    assert_eq!(Ext2FS::<MemDisk>::get_extended_super_block_size(), 940);
    assert_eq!(Ext2FS::<MemDisk>::get_block_group_descriptor_size(), 32);
    assert_eq!(Ext2FS::<MemDisk>::get_directory_entry_header_size(), 8);
}

#[test]
fn mount_reads_the_superblock() {
    let fs = mount();
    assert_eq!(fs.sb.max_no_of_blocks, 64);
    assert_eq!(fs.get_block_size(), 1024);
    assert_eq!(fs.get_inode_size(), 128);
    assert!(fs.extended_sb.is_none());
}

#[test]
fn mount_refuses_groups_without_inodes() {
    let mut disk = image();
    let mut sb = superblock();
    sb.inodes_per_block_group = 0;
    disk[1024..1024 + 84].copy_from_slice(&sb.pack());
    assert!(Ext2FS::new(MemDisk { data: disk }, false).is_none());
}

#[test]
fn mount_refuses_compression() {
    let mut disk = image();
    let mut sb = superblock();
    sb.major_version = 1;
    disk[1024..1024 + 84].copy_from_slice(&sb.pack());
    let mut e = Ext2ExtendedSuperblock::unpack(&[0u8; 152]).unwrap();
    e.inode_size = 128;
    e.required_features = 0x1;
    disk[1108..1108 + 152].copy_from_slice(&e.pack());
    assert!(Ext2FS::new(MemDisk { data: disk.clone() }, false).is_none());
    e.required_features = 0x2;
    disk[1108..1108 + 152].copy_from_slice(&e.pack());
    let fs = Ext2FS::new(MemDisk { data: disk }, false).unwrap();
    assert_eq!(fs.get_inode_size(), 128);
    assert!(fs.extended_sb.is_some());
}

#[test]
fn block_group_arithmetic() {
    let fs = mount();
    assert_eq!(fs.get_descriptor_index_of_block_number(2), None);
    assert_eq!(fs.get_descriptor_index_of_block_number(3), Some(0));
    assert_eq!(fs.get_descriptor_subindex_of_block_number(10), Some(7));
    assert_eq!(fs.get_descriptor_index_of_inode_addr(17), 1);
    assert_eq!(fs.get_descriptor_subindex_of_inode_addr(17), 0);
}

#[test]
fn blocks_read_back_what_was_written() {
    let mut fs = mount();
    assert!(fs.read_block(0).is_none());
    let data = vec![0xabu8; 1024];
    assert_eq!(fs.write_block(20, &data), Some(()));
    assert_eq!(fs.read_block(20), Some(data));
    assert!(fs.read_block(64).is_none());
}

#[test]
fn read_only_refuses_writes() {
    let mut fs = Ext2FS::new(MemDisk { data: image() }, true).unwrap();
    assert_eq!(fs.write_block(20, &vec![1u8; 1024]), None);
}

#[test]
fn descriptor_and_inode_round_trip() {
    let mut fs = mount();
    let mut d = fs.read_block_group_descriptor(0).unwrap();
    assert_eq!(d.block_addr_for_inode_table, 5);
    d.directories_in_group = 2;
    assert_eq!(fs.write_block_group_descriptor(0, &d), Some(()));
    assert_eq!(fs.read_block_group_descriptor(0).unwrap().directories_in_group, 2);
    let root = fs.read_inode(2).unwrap();
    assert_eq!(root.type_and_perm, 0x41ff);
    let mut f = zero_inode();
    f.low32_size = 3;
    assert_eq!(fs.write_inode(3, &f), Some(()));
    assert_eq!(fs.read_inode(3).unwrap().low32_size, 3);
}

#[test]
fn alloc_and_dealloc_block() {
    let mut fs = mount();
    let b = fs.alloc_block(0).unwrap();
    assert_eq!(b, 8);
    assert_eq!(fs.sb.unallocated_blocks, 49);
    assert_eq!(fs.read_block(8), Some(vec![0u8; 1024]));
    assert_eq!(fs.read_block_group_descriptor(0).unwrap().unallocated_blocks_in_group, 49);
    assert_eq!(fs.dealloc_block(b), Some(()));
    assert_eq!(fs.sb.unallocated_blocks, 50);
    // freeing it again is refused: it is no longer in use
    assert_eq!(fs.dealloc_block(b), None);
    // blocks before the first group are never freed
    assert_eq!(fs.dealloc_block(1), None);
    assert_eq!(fs.alloc_block_close_to(0), Some(8));
}

#[test]
fn alloc_and_dealloc_inode() {
    let mut fs = mount();
    let i = fs.alloc_inode(0).unwrap();
    assert_eq!(i, 3);
    assert_eq!(fs.sb.unallocated_inodes, 13);
    assert_eq!(fs.read_inode(3).unwrap().low32_size, 0);
    assert_eq!(fs.dealloc_inode(3), Some(()));
    assert_eq!(fs.sb.unallocated_inodes, 14);
    assert_eq!(fs.dealloc_inode(3), None);
    assert_eq!(fs.alloc_inode_close_to(0), Some(3));
}

#[test]
fn superblock_flush_persists_counters() {
    let mut fs = mount();
    fs.sb.unallocated_blocks = 42;
    assert_eq!(fs.flush_super_blocks(), Some(()));
    let sb = Ext2SuperBlock::unpack(&fs.backing_device.data[1024..1108]).unwrap();
    assert_eq!(sb.unallocated_blocks, 42);
}

#[test]
fn file_bytes_through_direct_blocks() {
    let mut fs = mount();
    let mut inode = zero_inode();
    inode.type_and_perm = 0x8000 | 0x1ff;
    inode.low32_size = 1500;
    inode.direct_block_pointers[0] = 30;
    inode.direct_block_pointers[1] = 31;
    let mut b30 = vec![1u8; 1024];
    b30[1023] = 9;
    fs.write_block(30, &b30).unwrap();
    fs.write_block(31, &vec![2u8; 1024]).unwrap();
    assert_eq!(inode.read_data_block(1, &fs), Some(vec![2u8; 1024]));
    let v = inode.read_bytes(1020, 8, &fs).unwrap();
    // reading goes through the block of the offset and one more per started block of the length
    assert_eq!(v, vec![1, 1, 1, 9]);
    let w = inode.read_bytes(0, 1500, &fs).unwrap();
    assert_eq!(w.len(), 1500);
    assert_eq!(w[1024], 2);
    assert!(inode.read_bytes(1000, 600, &fs).is_none());
    assert_eq!(inode.write_bytes(0, &[7u8; 10], &mut fs), Some(10));
    assert_eq!(inode.read_bytes(0, 3, &fs), Some(vec![7, 7, 7]));
    assert_eq!(inode.get_size(), 1500);
}

#[test]
fn inode_node_kinds() {
    let fs = mount();
    let root = fs.read_inode(2).unwrap();
    match root.as_vfs_node(fs, 2) {
        Some(Node::Folder(f)) => {
            let folder: Ext2Folder<MemDisk> = f;
            let entries = folder.get_entries();
            assert_eq!(entries.len(), 1);
            assert_eq!(entries[0].0, 0);
            assert_eq!(entries[0].1.inode_addr, 2);
            assert_eq!(entries[0].2, "hello");
        },
        _ => panic!("inode 2 is a folder"),
    }
    let fs = mount();
    let mut file = zero_inode();
    file.type_and_perm = 0x8000;
    assert!(matches!(file.as_vfs_node(fs, 3), Some(Node::File(_))));
    let fs = mount();
    assert!(zero_inode().as_vfs_node(fs, 4).is_none());
    let _ = NodeType::File;
}

#[test]
fn file_resize_grows_and_shrinks() {
    let mut fs = mount();
    let a = fs.alloc_inode(0).unwrap();
    let inode = fs.read_inode(a).unwrap();
    let mut file: Ext2File<MemDisk> = Ext2File { inode, inode_addr: a, fs };
    assert_eq!(file.resize(3000), Some(()));
    assert_eq!(file.get_size(), 3000);
    assert_eq!(file.write(0, &[5u8; 3000]), Some(3000));
    assert_eq!(file.read(2990, 10), Some(vec![5u8; 10]));
    assert_eq!(file.resize(100), Some(()));
    assert_eq!(file.get_size(), 100);
    assert_eq!(file.fs.read_inode(a).unwrap().low32_size, 100);
}

#[test]
fn folder_create_then_unlink_child() {
    let fs = mount();
    let root = fs.read_inode(2).unwrap();
    let mut folder: Ext2Folder<MemDisk> = Ext2Folder { inode: root, inode_addr: 2, fs };
    let (addr, ino) = folder.create_empty_child("new", NodeType::File).unwrap();
    assert_eq!(addr, 3);
    assert_eq!(ino.type_and_perm, 0x81ff);
    assert_eq!(ino.hard_links_to_inode, 1);
    assert_eq!(folder.fs.read_inode(3).unwrap().type_and_perm, 0x81ff);
    let entries = folder.get_entries();
    assert_eq!(entries.len(), 2);
    assert_eq!(entries[0].2, "hello");
    assert_eq!(entries[0].1.entry_size, 16);
    assert_eq!(entries[1].0, 16);
    assert_eq!(entries[1].1.inode_addr, 3);
    assert_eq!(entries[1].1.entry_size, 1008);
    assert_eq!(entries[1].2, "new");
    // the folder stays a whole number of blocks, and its bytes hold the new
    // entry: the inode address, then the name
    assert_eq!(folder.inode.get_size() % 1024, 0);
    let bytes = folder.inode.read_bytes(0, folder.inode.get_size(), &folder.fs).unwrap();
    assert_eq!(&bytes[16..20], &[3, 0, 0, 0]);
    assert_eq!(&bytes[24..27], b"new");
    assert_eq!(folder.unlink_or_delete_empty_child("missing"), None);
    assert_eq!(folder.unlink_or_delete_empty_child("hello"), None);
    assert_eq!(folder.unlink_or_delete_empty_child("new"), Some(()));
    let entries = folder.get_entries();
    assert_eq!(entries.len(), 1);
    assert_eq!(entries[0].1.entry_size, 1024);
    // the child had one link and no data, so its inode is free again
    assert_eq!(folder.fs.alloc_inode(0), Some(3));
}

#[test]
fn mount_from_superblock_bytes() {
    let sb = superblock().pack();
    let fs = Ext2FS::mount(MemDisk { data: image() }, &sb, None, true).unwrap();
    assert_eq!(fs.sb.inodes_per_block_group, 16);
    assert!(fs.read_only);
    let mut bad = superblock();
    bad.inodes_per_block_group = 0;
    assert!(Ext2FS::mount(MemDisk { data: image() }, &bad.pack(), None, false).is_none());
    assert!(Ext2FS::mount(MemDisk { data: image() }, &sb[..80], None, false).is_none());
}

#[test]
fn partition_from_entry_bytes() {
    let mut entry = [0u8; 16];
    entry[4] = 0x83;
    entry[8] = 2;
    entry[12] = 4;
    let p = MBRPartitionFile::from_entry(MemDisk { data: vec![0; 4096] }, MBRPartitionNumber::PART_1, &entry).unwrap();
    assert_eq!(p.get_offset(), 1024);
    assert_eq!(p.get_size(), 2048);
    entry[4] = 0;
    assert!(MBRPartitionFile::from_entry(MemDisk { data: vec![0; 4096] }, MBRPartitionNumber::PART_1, &entry).is_none());
}

#[test]
fn whole_blocks_read_back_as_written() {
    let fs = mount();
    let mut inode = zero_inode();
    inode.type_and_perm = 0x8000;
    inode.low32_size = 3 * 1024;
    inode.direct_block_pointers[1] = 40;
    inode.direct_block_pointers[2] = 41;
    let mut file: Ext2File<MemDisk> = Ext2File { inode, inode_addr: 3, fs };
    let mut data = vec![3u8; 2048];
    data[0] = 1;
    data[2047] = 2;
    assert_eq!(file.write(1024, &data), Some(2048));
    assert_eq!(file.read(1024, 2048), Some(data));
    assert_eq!(file.fs.read_block(40).unwrap()[0], 1);
    assert_eq!(file.fs.read_block(41).unwrap()[1023], 2);
}

#[test]
fn allocation_sets_and_clears_bitmap_bits() {
    let mut fs = mount();
    let d = fs.read_block_group_descriptor(0).unwrap();
    let p = fs.alloc_block(0).unwrap();
    let bm = fs.read_block(d.block_addr_for_block_usage_bitmap).unwrap();
    // the group's blocks count from the first block after the superblock
    // area and the descriptor table: block 3 of this one-group image
    let k = (p - 3) as usize;
    assert_eq!((bm[k / 8] >> (k % 8)) & 1, 1);
    let a = fs.alloc_inode(0).unwrap();
    let ibm = fs.read_block(d.block_addr_for_inode_usage_bitmap).unwrap();
    let j = (a - 1) as usize;
    assert_eq!((ibm[j / 8] >> (j % 8)) & 1, 1);
    assert_eq!(fs.dealloc_inode(a), Some(()));
    let ibm = fs.read_block(d.block_addr_for_inode_usage_bitmap).unwrap();
    assert_eq!((ibm[j / 8] >> (j % 8)) & 1, 0);
    assert_eq!(fs.dealloc_block(p), Some(()));
    let bm = fs.read_block(d.block_addr_for_block_usage_bitmap).unwrap();
    assert_eq!((bm[k / 8] >> (k % 8)) & 1, 0);
}
