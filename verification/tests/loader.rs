use ron::kernel::allocator::BasicAlloc;
use ron::kernel::emulator::cpu::Riscv64Cpu;
use ron::kernel::scheduler::Process;
use ron::kernel::vfs::Path;
use ron::kernel::virtmem::{LittleEndianVirtualMemory, UserPointer};
use ron::x86_kernel::elf::{ElfFile, ElfReading, ElfType, InstructionSet};

type Proc = Process<Riscv64Cpu<LittleEndianVirtualMemory>, (), ()>;

fn put(b: &mut Vec<u8>, at: usize, v: u64, n: usize) {
    for i in 0..n {
        b[at + i] = (v >> (8 * i)) as u8;
    }
}

/// A 64-bit little-endian RISC-V executable with one segment of 4 bytes in
/// the file and 8 in memory, at 0x1000, which is also its entry.
fn program(machine: u64) -> Vec<u8> {
    let mut b = vec![0u8; 124];
    b[0..7].copy_from_slice(&[0x7f, 0x45, 0x4c, 0x46, 2, 1, 1]);
    put(&mut b, 16, 2, 2);
    put(&mut b, 18, machine, 2);
    put(&mut b, 20, 1, 4);
    put(&mut b, 24, 0x1000, 8);
    put(&mut b, 32, 64, 8);
    put(&mut b, 52, 64, 2);
    put(&mut b, 54, 56, 2);
    put(&mut b, 56, 1, 2);
    put(&mut b, 64, 1, 4);
    put(&mut b, 64 + 8, 120, 8);
    put(&mut b, 64 + 16, 0x1000, 8);
    put(&mut b, 64 + 32, 4, 8);
    put(&mut b, 64 + 40, 8, 8);
    b[120..124].copy_from_slice(&[1, 2, 3, 4]);
    b
}

fn bytes_at(mem: &LittleEndianVirtualMemory, addr: u64, n: usize) -> Vec<u8> {
    UserPointer::<[u8]>::from_mem(addr).try_as_ref(mem, n).unwrap()
}

#[test]
fn elf_file_is_read() {
    match ElfFile::read(&program(0xF3)) {
        ElfReading::Valid(e) => {
            assert_eq!(e.header.elf_type, ElfType::EXECUTABLE);
            assert_eq!(e.header.instruction_set, InstructionSet::RiscV);
            assert_eq!(e.header.program_entry, 0x1000);
            assert_eq!(e.program_headers.len(), 1);
            assert_eq!(e.program_headers[0].segment_virtual_address, 0x1000);
            assert_eq!(e.program_headers[0].segment_file_size, 4);
            assert_eq!(e.program_headers[0].segment_virtual_size, 8);
        },
        _ => panic!("a valid file"),
    }
    assert!(matches!(ElfFile::read(&program(0xF3)[..5]), ElfReading::Overrun));
    let mut bad = program(0xF3);
    bad[1] = 0;
    assert!(matches!(ElfFile::read(&bad), ElfReading::Invalid));
}

#[test]
fn program_is_loaded_with_args_and_env() {
    let p: Proc = Process::from_elf(&program(0xF3), &["prog", "x"], Path::root(), &[("HOME", "/")]).unwrap();
    assert_eq!(p.emu.get_pc(), 0x1000);
    assert_eq!(p.emu.read_reg(10), 2);
    assert_eq!(p.emu.read_reg(11), 0x1008);
    let mem = p.emu.get_memory();
    assert_eq!(bytes_at(mem, 0x1000, 8), vec![1, 2, 3, 4, 0, 0, 0, 0]);
    assert_eq!(bytes_at(mem, 0x1008 + 128, 5), b"prog\0".to_vec());
    assert_eq!(bytes_at(mem, 0x1008 + 133, 2), b"x\0".to_vec());
    let mut argv = Vec::new();
    argv.extend_from_slice(&(0x1008u64 + 128).to_le_bytes());
    argv.extend_from_slice(&(0x1008u64 + 133).to_le_bytes());
    assert_eq!(bytes_at(mem, 0x1008, 16), argv);
    assert_eq!(p.data.env.len(), 1);
    assert_eq!(p.data.env[0].0, "HOME");
    assert_eq!(p.data.env[0].1, 0x1008 + 135);
    assert_eq!(bytes_at(mem, 0x1008 + 135, 2), b"/\0".to_vec());
    assert_eq!(bytes_at(mem, u64::MAX - 8191, 4), vec![0, 0, 0, 0]);
}

#[test]
fn program_for_another_machine_is_refused() {
    let p: Option<Proc> = Process::from_elf(&program(0x3E), &[], Path::root(), &[]);
    assert!(p.is_none());
}

#[test]
fn args_are_loaded_after_argv() {
    let mut mem = LittleEndianVirtualMemory::new();
    let mut a = BasicAlloc::from(0x10000, 0x10000, true);
    let argv = Proc::load_args_into_virtual_memory(&["ab", "c"], 2, &mut mem, &mut a).unwrap();
    assert_eq!(argv, 0x10000);
    assert_eq!(bytes_at(&mem, 0x10000 + 128, 3), b"ab\0".to_vec());
    assert_eq!(bytes_at(&mem, 0x10000 + 131, 2), b"c\0".to_vec());
    assert_eq!(a.get_heap_used(), 128 + 5);
}
