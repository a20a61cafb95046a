//! Ron: the verified core of a small hobby kernel, its RISC-V user-mode
//! emulator, its file systems and its tiny C library.
pub mod bytes;
pub mod kernel;
pub mod rlibc;
pub mod text;
pub mod x86_kernel;
