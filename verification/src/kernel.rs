//! The second-generation kernel: a RISC-V user-mode emulator, virtual memory,
//! processes and their system calls, a root file system and the drivers' data
//! layouts.
pub mod allocator;
pub mod process;
pub mod scheduler;
pub mod loader;
pub mod syscall;
pub mod emulator;
pub mod hio;
pub mod ps2_8042;
pub mod virtmem;
pub mod vfs;
pub mod terminal;
pub mod partitions;
pub mod efi;
pub mod shell;
