//! The x86 kernel: its frame buffers, ATA disks, partition tables, ext2 file
//! system, virtual file system and small kernel primitives.
pub mod framebuffer;
pub mod vfs;
pub mod devfs;
pub mod partitions;
pub mod filesystem;
pub mod efi;
pub mod primitives;
pub mod ata;
pub mod multiboot;
pub mod virtmem;
pub mod ext2;
pub mod allocator;
pub mod elf;
