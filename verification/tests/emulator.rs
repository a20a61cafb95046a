use ron::kernel::emulator::cpu::{Riscv64Cpu, TickEvent};
use ron::kernel::virtmem::{LittleEndianVirtualMemory, VirtualMemory};

fn program(words: &[u32]) -> Vec<u8> {
    let mut bytes = Vec::new();
    for w in words {
        bytes.extend_from_slice(&w.to_le_bytes());
    }
    bytes
}

fn cpu_with(words: &[u32]) -> Riscv64Cpu<LittleEndianVirtualMemory> {
    let mut mem = LittleEndianVirtualMemory::new();
    mem.add_region(0x1000, program(words)).unwrap();
    Riscv64Cpu::from(mem, 0x1000)
}

#[test]
fn addi_add_and_ecall() {
    // addi x1, x0, 5; add x2, x1, x1; ecall
    let mut cpu = cpu_with(&[0x0050_0093, 0x0010_8133, 0x0000_0073]);
    assert_eq!(cpu.tick(), Some(TickEvent::Executed));
    assert_eq!(cpu.read_reg(1), 5);
    assert_eq!(cpu.get_pc(), 0x1004);
    assert_eq!(cpu.tick(), Some(TickEvent::Executed));
    assert_eq!(cpu.read_reg(2), 10);
    assert_eq!(cpu.tick(), Some(TickEvent::EnvironmentCall { inst_size: 4 }));
    assert_eq!(cpu.get_pc(), 0x1008);
    cpu.complete_environment_call(4);
    assert_eq!(cpu.get_pc(), 0x100c);
}

#[test]
fn register_zero_stays_zero() {
    let mut cpu = cpu_with(&[0x0000_0013]);
    cpu.write_reg(0, 7);
    assert_eq!(cpu.read_reg(0), 0);
    cpu.write_reg(5, 7);
    assert_eq!(cpu.read_reg(5), 7);
    // addi x0, x0, 5 leaves x0 at 0
    let mut cpu = cpu_with(&[0x0050_0013]);
    assert_eq!(cpu.tick(), Some(TickEvent::Executed));
    assert_eq!(cpu.read_reg(0), 0);
}

#[test]
fn store_then_load_word() {
    // lui x1, 0x2 (x1 = 0x2000); addi x2, x0, -1; sw x2, 0(x1); lw x3, 0(x1)
    let mut cpu = cpu_with(&[0x0000_20b7, 0xfff0_0113, 0x0020_a023, 0x0000_a183]);
    cpu.get_memory_mut().add_region(0x2000, vec![0u8; 16]).unwrap();
    for _ in 0..4 {
        assert_eq!(cpu.tick(), Some(TickEvent::Executed));
    }
    assert_eq!(cpu.read_reg(1), 0x2000);
    assert_eq!(cpu.read_reg(2), u64::MAX);
    // lw sign-extends the word
    assert_eq!(cpu.read_reg(3), u64::MAX);
}

#[test]
fn branch_taken_moves_pc() {
    // beq x0, x0, 8
    let mut cpu = cpu_with(&[0x0000_0463, 0, 0]);
    assert_eq!(cpu.tick(), Some(TickEvent::Executed));
    assert_eq!(cpu.get_pc(), 0x1008);
}

#[test]
fn illegal_instruction_stops() {
    let mut cpu = cpu_with(&[0xffff_ffff]);
    assert_eq!(cpu.tick(), None);
}

#[test]
fn multiply() {
    // addi x1, x0, 7; mul x2, x1, x1
    let mut cpu = cpu_with(&[0x0070_0093, 0x0210_8133]);
    assert_eq!(cpu.tick(), Some(TickEvent::Executed));
    assert_eq!(cpu.tick(), Some(TickEvent::Executed));
    assert_eq!(cpu.read_reg(2), 49);
}
