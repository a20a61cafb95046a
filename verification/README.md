# ron

The decision-making core of Ron, a small hobby kernel, written in Verus:
every function here carries a contract that Verus proves.

- `src/kernel/`: the second-generation kernel. A RISC-V user-mode emulator
  (instruction decoding and execution), virtual memory made of regions,
  processes and their system calls, the scheduler (the decision for each
  process and a whole round over them), the ELF loader, the root file
  system, PS/2 scan codes and the US QWERTY layout, the terminal, the bump
  allocator, MBR partitions, EFI tables and the shell's line editing and
  command words.
- `src/x86_kernel/`: the first kernel. Frame buffers, ATA addressing, MBR
  partition files, the ext2 file system (superblock, block group
  descriptors, bitmaps, inodes and their block pointers, files and folders),
  the virtual file system, ELF headers, multiboot, and its allocator.
- `src/rlibc/`: the small C library's logic: `printf`-style formatting, the
  reading of conversion specifications, C strings and memory functions, the
  system call numbers and `fopen` modes.
- `src/bytes.rs`, `src/text.rs`: byte-order conversions (through
  `packed_struct`) and UTF-8 text.

Hardware access, interrupts and the boot entry points are not part of this
crate: device drivers plug in through the traits `IFile` (a block device or
file), `FrameBuffer`, `EmulatorMemory`, `VirtualMemory` and `TaskRunner`,
and the contracts state what the library does with whatever they return.

`tests/` runs the library on concrete values.
