//! The ext2 file system: its structures on disk, and the reading and
//! writing of blocks, inodes and allocation bitmaps on a device.
pub mod record;
pub mod structs;
pub mod fs;
pub mod inode;
pub mod node;
