//! The RV64IMC hart: its registers, and what each instruction does to them
//! and to memory (RISC-V Volume I, chapters 2, 5, 7 and 16).
use super::riscv_instruction::{
    compressed_format, get_compressed_instruction_type, lemma_field_u32, RiscvBTypeInstruction,
    RiscvCATypeInstruction, RiscvCBTypeInstruction, RiscvCITypeInstruction, RiscvCIWTypeInstruction,
    RiscvCJTypeInstruction, RiscvCLTypeInstruction, RiscvCRTypeInstruction, RiscvCSSTypeInstruction,
    RiscvCSTypeInstruction, RiscvCompressedInstType, RiscvCompressedOpcode, RiscvITypeInstruction,
    RiscvInstType, RiscvJTypeInstruction, RiscvOpcode, RiscvRTypeInstruction, RiscvSTypeInstruction,
    RiscvUTypeInstruction,
};
use super::{bytes_at, le_combine, store_le, EmulatorMemory};
use crate::bytes::{
    be_u16, be_u32, lemma_be_u16_roundtrip, lemma_be_u32_roundtrip, u16_to_msb_bytes,
    u32_from_msb_bytes, u32_to_msb_bytes,
};
use vstd::prelude::*;

verus! {

/// The value of register `r` (`x0` reads as zero).
pub open spec fn reg(regs: Seq<u64>, r: u8) -> u64 {
    if r == 0 {
        0
    } else {
        regs[r - 1]
    }
}

/// The registers after `v` is written to `r` (writes to `x0` are dropped).
pub open spec fn reg_write(regs: Seq<u64>, r: u8, v: u64) -> Seq<u64> {
    if r == 0 {
        regs
    } else {
        regs.update(r - 1, v)
    }
}

/// A 32-bit two's-complement value widened to 64 bits.
pub open spec fn sext32(v: u32) -> u64 {
    if v >= 0x8000_0000 {
        (v + 0xFFFF_FFFF_0000_0000) as u64
    } else {
        v as u64
    }
}

pub open spec fn sext16(v: u16) -> u64 {
    if v >= 0x8000 {
        (v + 0xFFFF_FFFF_FFFF_0000) as u64
    } else {
        v as u64
    }
}

pub open spec fn sext8(v: u8) -> u64 {
    if v >= 0x80 {
        (v + 0xFFFF_FFFF_FFFF_FF00) as u64
    } else {
        v as u64
    }
}

/// A 64-bit two's-complement value widened to 128 bits, as a number.
pub open spec fn sext128(v: u64) -> int {
    if v >= 0x8000_0000_0000_0000 {
        v + 0xFFFF_FFFF_FFFF_FFFF_0000_0000_0000_0000
    } else {
        v as int
    }
}

/// The upper 64 bits of the 128-bit product of two 128-bit values.
pub open spec fn high_product(x: int, y: int) -> u64 {
    (((x * y) % (0x1_0000_0000_0000_0000int * 0x1_0000_0000_0000_0000int)) / 0x1_0000_0000_0000_0000int) as u64
}

/// Signed division as Rust's `wrapping_div` does it: the quotient, or the
/// dividend's value `MIN` where `MIN / -1` overflows (the divisor is not 0).
pub open spec fn sdiv64(a: i64, b: i64) -> i64 {
    match a.checked_div(b) {
        Some(q) => q,
        None => i64::MIN,
    }
}

pub open spec fn srem64(a: i64, b: i64) -> i64 {
    match a.checked_rem(b) {
        Some(r) => r,
        None => 0,
    }
}

pub open spec fn sdiv32(a: i32, b: i32) -> i32 {
    match a.checked_div(b) {
        Some(q) => q,
        None => i32::MIN,
    }
}

pub open spec fn srem32(a: i32, b: i32) -> i32 {
    match a.checked_rem(b) {
        Some(r) => r,
        None => 0,
    }
}

/// Whether an R-type instruction divides by zero (which the emulator does
/// not define).
pub open spec fn rtype_divides_by_zero(op: RiscvOpcode, f3: u8, f7: u8, b: u64) -> bool {
    &&& f7 == 1
    &&& 4 <= f3 <= 7
    &&& (op == RiscvOpcode::OP && b == 0) || (op == RiscvOpcode::OP32 && (b as u32) == 0)
}

/// The value an R-type instruction writes to `rd`, from the values of `rs1`
/// and `rs2`; `None` for the encodings that do nothing.
pub open spec fn rtype_value(op: RiscvOpcode, f3: u8, f7: u8, a: u64, b: u64) -> Option<u64> {
    let a32 = a as u32;
    let b32 = b as u32;
    if op == RiscvOpcode::OP && f7 == 0 {
        if f3 == 0 {
            Some(vstd::wrapping::u64_specs::wrapping_add(a, b))
        } else if f3 == 1 {
            Some(a << (b & 63))
        } else if f3 == 2 {
            Some(if (a as i64) < (b as i64) { 1u64 } else { 0u64 })
        } else if f3 == 3 {
            Some(if a < b { 1u64 } else { 0u64 })
        } else if f3 == 4 {
            Some(a ^ b)
        } else if f3 == 5 {
            Some(a >> (b & 63))
        } else if f3 == 6 {
            Some(a | b)
        } else if f3 == 7 {
            Some(a & b)
        } else {
            None
        }
    } else if op == RiscvOpcode::OP && f7 == 0x20 && f3 == 0 {
        Some(vstd::wrapping::u64_specs::wrapping_sub(a, b))
    } else if op == RiscvOpcode::OP && f7 == 0x20 && f3 == 5 {
        Some(((a as i64) >> (b & 63)) as u64)
    } else if op == RiscvOpcode::OP && f7 == 1 {
        if f3 == 0 {
            Some(vstd::wrapping::u64_specs::wrapping_mul(a, b))
        } else if f3 == 1 {
            Some(high_product(sext128(a), sext128(b)))
        } else if f3 == 2 {
            Some(high_product(sext128(a), b as int))
        } else if f3 == 3 {
            Some(high_product(a as int, b as int))
        } else if f3 == 4 {
            Some(sdiv64(a as i64, b as i64) as u64)
        } else if f3 == 5 {
            Some(a / b)
        } else if f3 == 6 {
            Some(srem64(a as i64, b as i64) as u64)
        } else if f3 == 7 {
            Some(a % b)
        } else {
            None
        }
    } else if op == RiscvOpcode::OP32 && f7 == 0 && f3 == 0 {
        Some(sext32(vstd::wrapping::u32_specs::wrapping_add(a32, b32)))
    } else if op == RiscvOpcode::OP32 && f7 == 0x20 && f3 == 0 {
        Some(sext32(vstd::wrapping::u32_specs::wrapping_sub(a32, b32)))
    } else if op == RiscvOpcode::OP32 && f7 == 0 && f3 == 1 {
        Some(sext32(a32 << (b32 & 31)))
    } else if op == RiscvOpcode::OP32 && f7 == 0 && f3 == 5 {
        Some(sext32(a32 >> (b32 & 31)))
    } else if op == RiscvOpcode::OP32 && f7 == 0x20 && f3 == 5 {
        Some(sext32(((a32 as i32) >> (b32 & 31)) as u32))
    } else if op == RiscvOpcode::OP32 && f7 == 1 {
        if f3 == 0 {
            Some(sext32(vstd::wrapping::u32_specs::wrapping_mul(a32, b32)))
        } else if f3 == 4 {
            Some(sext32(sdiv32(a32 as i32, b32 as i32) as u32))
        } else if f3 == 5 {
            Some(sext32(a32 / b32))
        } else if f3 == 6 {
            Some(sext32(srem32(a32 as i32, b32 as i32) as u32))
        } else if f3 == 7 {
            Some(sext32(a32 % b32))
        } else {
            None
        }
    } else {
        None
    }
}

/// A shift amount masked to its low 6 bits is below 64.
pub proof fn lemma_shift_mask64(a: u64)
    by (bit_vector)
    ensures
        a & 63 < 64,
{
}

/// A shift amount masked to its low 5 bits is below 32.
pub proof fn lemma_shift_mask32(b: u32)
    by (bit_vector)
    ensures
        b & 31 < 32,
{
}

fn sign_extend_u32_to_u64(v: u32) -> (r: u64)
    ensures
        r == sext32(v),
{
    if v >= 0x8000_0000 {
        v as u64 + 0xFFFF_FFFF_0000_0000
    } else {
        v as u64
    }
}

fn sign_extend_u16_to_u64(v: u16) -> (r: u64)
    ensures
        r == sext16(v),
{
    if v >= 0x8000 {
        v as u64 + 0xFFFF_FFFF_FFFF_0000
    } else {
        v as u64
    }
}

fn sign_extend_u8_to_u64(v: u8) -> (r: u64)
    ensures
        r == sext8(v),
{
    if v >= 0x80 {
        v as u64 + 0xFFFF_FFFF_FFFF_FF00
    } else {
        v as u64
    }
}

fn sign_extend_u64_to_u128(v: u64) -> (r: u128)
    ensures
        r == sext128(v),
{
    if v >= 0x8000_0000_0000_0000 {
        v as u128 + 0xFFFF_FFFF_FFFF_FFFF_0000_0000_0000_0000
    } else {
        v as u128
    }
}

/// The upper half of the 128-bit product.
fn high_half(x: u128, y: u128) -> (r: u64)
    ensures
        r == high_product(x as int, y as int),
{
    let p = x.wrapping_mul(y);
    proof {
        vstd::bits::lemma_u128_shr_is_div(p, 64);
        vstd::arithmetic::power2::lemma2_to64_rest();
        assert(p <= u128::MAX);
        assert(p / 0x1_0000_0000_0000_0000 < 0x1_0000_0000_0000_0000) by (nonlinear_arith)
            requires
                p <= u128::MAX,
        ;
    }
    (p >> 64u128) as u64
}

fn wrapping_div_i64(a: i64, b: i64) -> (r: i64)
    ensures
        r == sdiv64(a, b),
{
    match a.checked_div(b) {
        Some(q) => q,
        None => i64::MIN,
    }
}

fn wrapping_rem_i64(a: i64, b: i64) -> (r: i64)
    ensures
        r == srem64(a, b),
{
    match a.checked_rem(b) {
        Some(r) => r,
        None => 0,
    }
}

fn wrapping_div_i32(a: i32, b: i32) -> (r: i32)
    ensures
        r == sdiv32(a, b),
{
    match a.checked_div(b) {
        Some(q) => q,
        None => i32::MIN,
    }
}

fn wrapping_rem_i32(a: i32, b: i32) -> (r: i32)
    ensures
        r == srem32(a, b),
{
    match a.checked_rem(b) {
        Some(r) => r,
        None => 0,
    }
}

/// The value an R-type instruction writes to `rd`.
pub fn rtype_alu(op: RiscvOpcode, f3: u8, f7: u8, a: u64, b: u64) -> (r: Option<u64>)
    requires
        !rtype_divides_by_zero(op, f3, f7, b),
    ensures
        r == rtype_value(op, f3, f7, a, b),
{
    let a32 = a as u32;
    let b32 = b as u32;
    proof {
        lemma_shift_mask64(b);
        lemma_shift_mask32(b32);
    }
    if op == RiscvOpcode::OP && f7 == 0 {
        if f3 == 0 {
            Some(a.wrapping_add(b))
        } else if f3 == 1 {
            Some(a << (b & 63))
        } else if f3 == 2 {
            Some(if (a as i64) < (b as i64) { 1u64 } else { 0u64 })
        } else if f3 == 3 {
            Some(if a < b { 1u64 } else { 0u64 })
        } else if f3 == 4 {
            Some(a ^ b)
        } else if f3 == 5 {
            Some(a >> (b & 63))
        } else if f3 == 6 {
            Some(a | b)
        } else if f3 == 7 {
            Some(a & b)
        } else {
            None
        }
    } else if op == RiscvOpcode::OP && f7 == 0x20 && f3 == 0 {
        Some(a.wrapping_sub(b))
    } else if op == RiscvOpcode::OP && f7 == 0x20 && f3 == 5 {
        Some(((a as i64) >> (b & 63)) as u64)
    } else if op == RiscvOpcode::OP && f7 == 1 {
        if f3 == 0 {
            Some(a.wrapping_mul(b))
        } else if f3 == 1 {
            Some(high_half(sign_extend_u64_to_u128(a), sign_extend_u64_to_u128(b)))
        } else if f3 == 2 {
            Some(high_half(sign_extend_u64_to_u128(a), b as u128))
        } else if f3 == 3 {
            Some(high_half(a as u128, b as u128))
        } else if f3 == 4 {
            Some(wrapping_div_i64(a as i64, b as i64) as u64)
        } else if f3 == 5 {
            Some(a / b)
        } else if f3 == 6 {
            Some(wrapping_rem_i64(a as i64, b as i64) as u64)
        } else if f3 == 7 {
            Some(a % b)
        } else {
            None
        }
    } else if op == RiscvOpcode::OP32 && f7 == 0 && f3 == 0 {
        Some(sign_extend_u32_to_u64(a32.wrapping_add(b32)))
    } else if op == RiscvOpcode::OP32 && f7 == 0x20 && f3 == 0 {
        Some(sign_extend_u32_to_u64(a32.wrapping_sub(b32)))
    } else if op == RiscvOpcode::OP32 && f7 == 0 && f3 == 1 {
        Some(sign_extend_u32_to_u64(a32 << (b32 & 31)))
    } else if op == RiscvOpcode::OP32 && f7 == 0 && f3 == 5 {
        Some(sign_extend_u32_to_u64(a32 >> (b32 & 31)))
    } else if op == RiscvOpcode::OP32 && f7 == 0x20 && f3 == 5 {
        Some(sign_extend_u32_to_u64(((a32 as i32) >> (b32 & 31)) as u32))
    } else if op == RiscvOpcode::OP32 && f7 == 1 {
        if f3 == 0 {
            Some(sign_extend_u32_to_u64(a32.wrapping_mul(b32)))
        } else if f3 == 4 {
            Some(sign_extend_u32_to_u64(wrapping_div_i32(a32 as i32, b32 as i32) as u32))
        } else if f3 == 5 {
            Some(sign_extend_u32_to_u64(a32 / b32))
        } else if f3 == 6 {
            Some(sign_extend_u32_to_u64(wrapping_rem_i32(a32 as i32, b32 as i32) as u32))
        } else if f3 == 7 {
            Some(sign_extend_u32_to_u64(a32 % b32))
        } else {
            None
        }
    } else {
        None
    }
}

/// The value an OP-IMM or OP-IMM-32 instruction writes to `rd`, from `rs1`
/// and the sign-extended 12-bit immediate; `None` for the encodings that are
/// not such arithmetic.
pub open spec fn itype_alu_value(op: RiscvOpcode, f3: u8, a: u64, imm: u32) -> Option<u64> {
    let i = sext32(imm);
    let a32 = a as u32;
    if op == RiscvOpcode::OPIMM {
        if f3 == 0 {
            Some(vstd::wrapping::u64_specs::wrapping_add(a, i))
        } else if f3 == 1 {
            Some(a << (i & 63))
        } else if f3 == 2 {
            Some(if (a as i64) < (i as i64) { 1u64 } else { 0u64 })
        } else if f3 == 3 {
            Some(if a < i { 1u64 } else { 0u64 })
        } else if f3 == 4 {
            Some(a ^ i)
        } else if f3 == 5 {
            Some(if i & !63u64 != 0 { ((a as i64) >> (i & 63)) as u64 } else { a >> (i & 63) })
        } else if f3 == 6 {
            Some(a | i)
        } else if f3 == 7 {
            Some(a & i)
        } else {
            None
        }
    } else if op == RiscvOpcode::OPIMM32 {
        if f3 == 0 {
            Some(sext32(vstd::wrapping::u32_specs::wrapping_add(a32, imm)))
        } else if f3 == 1 {
            Some(sext32(a32 << (imm & 31)))
        } else if f3 == 5 {
            Some(if imm & !31u32 != 0 {
                sext32(((a32 as i32) >> (imm & 31)) as u32)
            } else {
                sext32(a32 >> (imm & 31))
            })
        } else {
            None
        }
    } else {
        None
    }
}

/// The value an OP-IMM or OP-IMM-32 instruction writes to `rd`.
pub fn itype_alu(op: RiscvOpcode, f3: u8, a: u64, imm: u32) -> (r: Option<u64>)
    ensures
        r == itype_alu_value(op, f3, a, imm),
{
    let i = sign_extend_u32_to_u64(imm);
    let a32 = a as u32;
    proof {
        lemma_shift_mask64(i);
        lemma_shift_mask32(imm);
    }
    if op == RiscvOpcode::OPIMM {
        if f3 == 0 {
            Some(a.wrapping_add(i))
        } else if f3 == 1 {
            Some(a << (i & 63))
        } else if f3 == 2 {
            Some(if (a as i64) < (i as i64) { 1u64 } else { 0u64 })
        } else if f3 == 3 {
            Some(if a < i { 1u64 } else { 0u64 })
        } else if f3 == 4 {
            Some(a ^ i)
        } else if f3 == 5 {
            Some(if i & !63u64 != 0 { ((a as i64) >> (i & 63)) as u64 } else { a >> (i & 63) })
        } else if f3 == 6 {
            Some(a | i)
        } else if f3 == 7 {
            Some(a & i)
        } else {
            None
        }
    } else if op == RiscvOpcode::OPIMM32 {
        if f3 == 0 {
            Some(sign_extend_u32_to_u64(a32.wrapping_add(imm)))
        } else if f3 == 1 {
            Some(sign_extend_u32_to_u64(a32 << (imm & 31)))
        } else if f3 == 5 {
            Some(if imm & !31u32 != 0 {
                sign_extend_u32_to_u64(((a32 as i32) >> (imm & 31)) as u32)
            } else {
                sign_extend_u32_to_u64(a32 >> (imm & 31))
            })
        } else {
            None
        }
    } else {
        None
    }
}

/// Whether a branch is taken, from `rs1` and `rs2`; `None` for the
/// encodings that are no branch.
pub open spec fn branch_taken(f3: u8, a: u64, b: u64) -> Option<bool> {
    if f3 == 0 {
        Some(a == b)
    } else if f3 == 1 {
        Some(a != b)
    } else if f3 == 4 {
        Some((a as i64) < (b as i64))
    } else if f3 == 5 {
        Some((a as i64) >= (b as i64))
    } else if f3 == 6 {
        Some(a < b)
    } else if f3 == 7 {
        Some(a >= b)
    } else {
        None
    }
}

/// The number of bytes a load with this `funct3` reads.
pub open spec fn load_size(f3: u8) -> nat {
    if f3 == 0 || f3 == 4 {
        1
    } else if f3 == 1 || f3 == 5 {
        2
    } else if f3 == 2 || f3 == 6 {
        4
    } else if f3 == 3 {
        8
    } else {
        0
    }
}

/// The value a load writes to `rd`, from the bytes it read (combined least
/// significant first): sign-extended for LB, LH and LW, zero-extended for LBU,
/// LHU, LWU.
pub open spec fn load_value(f3: u8, raw: u64) -> u64 {
    if f3 == 0 {
        sext8(raw as u8)
    } else if f3 == 1 {
        sext16(raw as u16)
    } else if f3 == 2 {
        sext32(raw as u32)
    } else {
        raw
    }
}

/// The number of bytes a store with this `funct3` writes.
pub open spec fn store_size(f3: u8) -> nat {
    if f3 == 0 {
        1
    } else if f3 == 1 {
        2
    } else if f3 == 2 {
        4
    } else if f3 == 3 {
        8
    } else {
        0
    }
}

/// The effective address of a load or store: `rs1` plus the sign-extended
/// offset, wrapping.
pub open spec fn effective_address(base: u64, imm: u32) -> u64 {
    vstd::wrapping::u64_specs::wrapping_add(base, sext32(imm))
}

/// The hart: the program counter, the registers `x1`..`x31`, the memory, and
/// whether it has been halted.
pub struct Riscv64Cpu<M: EmulatorMemory> {
    program_counter: u64,
    registers: [u64; 31],
    memory: M,
    halted: bool,
}

/// What a tick did besides executing an instruction.
#[derive(Debug, Clone, Copy, PartialEq, Eq, Structural)]
pub enum TickEvent {
    /// An instruction ran and the program counter moved on.
    Executed,
    /// An ECALL is to be served now: the program counter still points at it.
    /// Once the call is served, [`Riscv64Cpu::complete_environment_call`]
    /// moves past its `inst_size` bytes.
    EnvironmentCall { inst_size: u64 },
}

impl<M: EmulatorMemory> Riscv64Cpu<M> {
    pub closed spec fn pc(&self) -> u64 {
        self.program_counter
    }

    /// `x1`..`x31`.
    pub closed spec fn regs(&self) -> Seq<u64> {
        self.registers@
    }

    pub closed spec fn mem(&self) -> M {
        self.memory
    }

    pub closed spec fn is_halted(&self) -> bool {
        self.halted
    }

    /// A hart with all registers zero that starts at `start_address`.
    pub fn from(mem: M, start_address: u64) -> (r: Self)
        ensures
            r.pc() == start_address,
            r.regs() == Seq::new(31, |i: int| 0u64),
            r.mem() == mem,
            !r.is_halted(),
    {
        let r = Riscv64Cpu { program_counter: start_address, registers: [0u64; 31], memory: mem, halted: false };
        assert(r.registers@ =~= Seq::new(31, |i: int| 0u64));
        r
    }

    pub fn write_reg(&mut self, reg_n: u8, val: u64)
        requires
            reg_n < 32,
        ensures
            final(self).regs() == reg_write(old(self).regs(), reg_n, val),
            final(self).pc() == old(self).pc(),
            final(self).mem() == old(self).mem(),
            final(self).is_halted() == old(self).is_halted(),
    {
        if reg_n != 0 {
            self.registers.set((reg_n - 1) as usize, val);
        }
    }

    pub fn read_reg(&self, reg_n: u8) -> (r: u64)
        requires
            reg_n < 32,
        ensures
            r == reg(self.regs(), reg_n),
    {
        if reg_n == 0 {
            0
        } else {
            self.registers[(reg_n - 1) as usize]
        }
    }

    /// Stops the hart: every later tick fails.
    pub fn halt(&mut self)
        ensures
            final(self).is_halted(),
            final(self).pc() == old(self).pc(),
            final(self).regs() == old(self).regs(),
            final(self).mem() == old(self).mem(),
    {
        self.halted = true;
    }

    pub fn get_pc(&self) -> (r: u64)
        ensures
            r == self.pc(),
    {
        self.program_counter
    }

    pub fn get_memory(&self) -> (r: &M)
        ensures
            *r == self.mem(),
    {
        &self.memory
    }

    pub fn get_memory_mut(&mut self) -> (r: &mut M)
        ensures
            *r == old(self).mem(),
            final(self).mem() == *final(r),
            final(self).pc() == old(self).pc(),
            final(self).regs() == old(self).regs(),
            final(self).is_halted() == old(self).is_halted(),
    {
        &mut self.memory
    }
}

/// The registers after an R-type instruction.
pub open spec fn rtype_regs(regs: Seq<u64>, i: RiscvRTypeInstruction) -> Seq<u64> {
    match rtype_value(i.opcode, i.funct3, i.funct7, reg(regs, i.rs1), reg(regs, i.rs2)) {
        Some(v) => reg_write(regs, i.rd, v),
        None => regs,
    }
}

/// Whether an I-type instruction is a load that reads memory.
pub open spec fn is_load(i: RiscvITypeInstruction) -> bool {
    i.opcode == RiscvOpcode::LOAD && load_size(i.funct3) > 0
}

/// Whether an I-type instruction is JALR.
pub open spec fn is_jalr(i: RiscvITypeInstruction) -> bool {
    i.opcode == RiscvOpcode::JALR && i.funct3 == 0
}

/// Whether an I-type instruction is an environment call (a SYSTEM
/// instruction with immediate 0).
pub open spec fn is_ecall(i: RiscvITypeInstruction) -> bool {
    i.opcode == RiscvOpcode::SYSTEM && i.imm_value() == 0
}

/// The registers after an I-type instruction that reads `raw` from memory (if
/// it is a load) at program counter `pc`.
pub open spec fn itype_regs(regs: Seq<u64>, pc: u64, size: u64, i: RiscvITypeInstruction, raw: u64) -> Seq<u64> {
    if is_jalr(i) {
        reg_write(regs, i.rd, (pc + size) as u64)
    } else if is_load(i) {
        reg_write(regs, i.rd, load_value(i.funct3, raw))
    } else {
        match itype_alu_value(i.opcode, i.funct3, reg(regs, i.rs1), i.imm_value()) {
            Some(v) => reg_write(regs, i.rd, v),
            None => regs,
        }
    }
}

/// The program counter after an I-type instruction (before it moves past the
/// instruction): JALR jumps to `rs1` plus the offset, read after `rd` is
/// written, with bit 0 cleared.
pub open spec fn itype_pc(regs: Seq<u64>, pc: u64, size: u64, i: RiscvITypeInstruction) -> u64 {
    if is_jalr(i) {
        let target = vstd::wrapping::u64_specs::wrapping_add(
            sext32(i.imm_value()),
            reg(reg_write(regs, i.rd, (pc + size) as u64), i.rs1),
        ) & !1u64;
        vstd::wrapping::u64_specs::wrapping_sub(target, size)
    } else {
        pc
    }
}

/// The program counter after a branch (before it moves past the instruction).
pub open spec fn btype_pc(regs: Seq<u64>, pc: u64, size: u64, i: RiscvBTypeInstruction) -> u64 {
    if i.opcode == RiscvOpcode::BRANCH && branch_taken(i.funct3, reg(regs, i.rs1), reg(regs, i.rs2))
        == Some(true) {
        vstd::wrapping::u64_specs::wrapping_sub(
            vstd::wrapping::u64_specs::wrapping_add(pc, sext32(i.imm_value())),
            size,
        )
    } else {
        pc
    }
}

pub open spec fn utype_regs(regs: Seq<u64>, pc: u64, i: RiscvUTypeInstruction) -> Seq<u64> {
    if i.opcode == RiscvOpcode::LUI {
        reg_write(regs, i.rd, sext32(i.imm_value()))
    } else if i.opcode == RiscvOpcode::AUIPC {
        reg_write(regs, i.rd, vstd::wrapping::u64_specs::wrapping_add(sext32(i.imm_value()), pc))
    } else {
        regs
    }
}

pub open spec fn jtype_regs(regs: Seq<u64>, pc: u64, size: u64, i: RiscvJTypeInstruction) -> Seq<u64> {
    if i.opcode == RiscvOpcode::JAL {
        reg_write(regs, i.rd, (pc + size) as u64)
    } else {
        regs
    }
}

pub open spec fn jtype_pc(pc: u64, size: u64, i: RiscvJTypeInstruction) -> u64 {
    if i.opcode == RiscvOpcode::JAL {
        vstd::wrapping::u64_specs::wrapping_sub(
            vstd::wrapping::u64_specs::wrapping_add(sext32(i.imm_value()), pc),
            size,
        )
    } else {
        pc
    }
}

impl<M: EmulatorMemory> Riscv64Cpu<M> {
    fn execute_rtype_inst(&mut self, inst: RiscvRTypeInstruction)
        requires
            inst.rd < 32 && inst.rs1 < 32 && inst.rs2 < 32,
            !rtype_divides_by_zero(inst.opcode, inst.funct3, inst.funct7, reg(old(self).regs(), inst.rs2)),
        ensures
            final(self).regs() == rtype_regs(old(self).regs(), inst),
            final(self).pc() == old(self).pc(),
            final(self).mem() == old(self).mem(),
            final(self).is_halted() == old(self).is_halted(),
    {
        let a = self.read_reg(inst.rs1);
        let b = self.read_reg(inst.rs2);
        if let Some(v) = rtype_alu(inst.opcode, inst.funct3, inst.funct7, a, b) {
            self.write_reg(inst.rd, v);
        }
    }

    /// Executes an I-type instruction; `true` where it is an environment call,
    /// which the caller serves.
    fn execute_itype_inst(&mut self, inst: RiscvITypeInstruction, inst_size: u64) -> (ecall: bool)
        requires
            inst.rd < 32 && inst.rs1 < 32 && inst.imm < 0x1000,
            is_jalr(inst) ==> old(self).pc() + inst_size <= u64::MAX,
            is_load(inst) ==> old(self).mem().can_access(
                effective_address(reg(old(self).regs(), inst.rs1), inst.imm_value()),
                load_size(inst.funct3),
            ),
        ensures
            ecall == (!is_jalr(inst) && !is_load(inst) && itype_alu_value(inst.opcode, inst.funct3, reg(old(self).regs(), inst.rs1), inst.imm_value()) is None && is_ecall(inst)),
            final(self).regs() == itype_regs(
                old(self).regs(),
                old(self).pc(),
                inst_size,
                inst,
                le_combine(bytes_at(
                    old(self).mem().byte_view(),
                    effective_address(reg(old(self).regs(), inst.rs1), inst.imm_value()),
                    load_size(inst.funct3),
                )),
            ),
            final(self).pc() == itype_pc(old(self).regs(), old(self).pc(), inst_size, inst),
            final(self).mem() == old(self).mem(),
            final(self).is_halted() == old(self).is_halted(),
    {
        let imm = inst.parse_imm();
        if inst.opcode == RiscvOpcode::JALR && inst.funct3 == 0 {
            let pc = self.program_counter;
            self.write_reg(inst.rd, pc + inst_size);
            let new_program_counter = sign_extend_u32_to_u64(imm).wrapping_add(self.read_reg(inst.rs1)) & !1u64;
            self.program_counter = new_program_counter.wrapping_sub(inst_size);
            return false;
        }
        if inst.opcode == RiscvOpcode::LOAD && inst.funct3 <= 6 {
            let addr = self.read_reg(inst.rs1).wrapping_add(sign_extend_u32_to_u64(imm));
            let v: u64 = if inst.funct3 == 0 {
                sign_extend_u8_to_u64(self.memory.read_u8_ne(addr))
            } else if inst.funct3 == 1 {
                sign_extend_u16_to_u64(self.memory.read_u16_ne(addr))
            } else if inst.funct3 == 2 {
                sign_extend_u32_to_u64(self.memory.read_u32_ne(addr))
            } else if inst.funct3 == 3 {
                self.memory.read_u64_ne(addr)
            } else if inst.funct3 == 6 {
                self.memory.read_u32_ne(addr) as u64
            } else if inst.funct3 == 5 {
                self.memory.read_u16_ne(addr) as u64
            } else {
                self.memory.read_u8_ne(addr) as u64
            };
            self.write_reg(inst.rd, v);
            return false;
        }
        let a = self.read_reg(inst.rs1);
        if let Some(v) = itype_alu(inst.opcode, inst.funct3, a, imm) {
            self.write_reg(inst.rd, v);
            return false;
        }
        inst.opcode == RiscvOpcode::SYSTEM && imm == 0
    }

    fn execute_stype_inst(&mut self, inst: RiscvSTypeInstruction)
        requires
            inst.rs1 < 32 && inst.rs2 < 32 && inst.wf(),
            inst.opcode == RiscvOpcode::STORE && store_size(inst.funct3) > 0 ==> old(self).mem().can_access(
                effective_address(reg(old(self).regs(), inst.rs1), inst.imm_value()),
                store_size(inst.funct3),
            ),
        ensures
            final(self).regs() == old(self).regs(),
            final(self).pc() == old(self).pc(),
            final(self).is_halted() == old(self).is_halted(),
            forall|a: u64, s: nat| final(self).mem().can_access(a, s) == old(self).mem().can_access(a, s),
            final(self).mem().byte_view() == if inst.opcode == RiscvOpcode::STORE && store_size(inst.funct3) > 0 {
                store_le(
                    old(self).mem().byte_view(),
                    effective_address(reg(old(self).regs(), inst.rs1), inst.imm_value()),
                    store_size(inst.funct3),
                    low_bytes_of(reg(old(self).regs(), inst.rs2), store_size(inst.funct3)),
                )
            } else {
                old(self).mem().byte_view()
            },
    {
        if inst.opcode != RiscvOpcode::STORE || inst.funct3 > 3 {
            return ;
        }
        let imm = inst.parse_imm();
        let addr = self.read_reg(inst.rs1).wrapping_add(sign_extend_u32_to_u64(imm));
        let v = self.read_reg(inst.rs2);
        if inst.funct3 == 0 {
            self.memory.write_u8_ne(addr, v as u8);
        } else if inst.funct3 == 1 {
            self.memory.write_u16_ne(addr, v as u16);
        } else if inst.funct3 == 2 {
            self.memory.write_u32_ne(addr, v as u32);
        } else {
            self.memory.write_u64_ne(addr, v);
        }
    }

    fn execute_btype_inst(&mut self, inst: RiscvBTypeInstruction, inst_size: u64)
        requires
            inst.rs1 < 32 && inst.rs2 < 32 && inst.wf(),
        ensures
            final(self).regs() == old(self).regs(),
            final(self).pc() == btype_pc(old(self).regs(), old(self).pc(), inst_size, inst),
            final(self).mem() == old(self).mem(),
            final(self).is_halted() == old(self).is_halted(),
    {
        if inst.opcode != RiscvOpcode::BRANCH {
            return ;
        }
        let a = self.read_reg(inst.rs1);
        let b = self.read_reg(inst.rs2);
        let taken = if inst.funct3 == 0 {
            a == b
        } else if inst.funct3 == 1 {
            a != b
        } else if inst.funct3 == 4 {
            (a as i64) < (b as i64)
        } else if inst.funct3 == 5 {
            (a as i64) >= (b as i64)
        } else if inst.funct3 == 6 {
            a < b
        } else if inst.funct3 == 7 {
            a >= b
        } else {
            false
        };
        if taken {
            let imm = inst.parse_imm();
            self.program_counter = self.program_counter.wrapping_add(sign_extend_u32_to_u64(imm)).wrapping_sub(inst_size);
        }
    }

    fn execute_utype_inst(&mut self, inst: RiscvUTypeInstruction)
        requires
            inst.rd < 32,
        ensures
            final(self).regs() == utype_regs(old(self).regs(), old(self).pc(), inst),
            final(self).pc() == old(self).pc(),
            final(self).mem() == old(self).mem(),
            final(self).is_halted() == old(self).is_halted(),
    {
        if inst.opcode == RiscvOpcode::LUI {
            let v = sign_extend_u32_to_u64(inst.parse_imm());
            self.write_reg(inst.rd, v);
        } else if inst.opcode == RiscvOpcode::AUIPC {
            let v = sign_extend_u32_to_u64(inst.parse_imm()).wrapping_add(self.program_counter);
            self.write_reg(inst.rd, v);
        }
    }

    fn execute_jtype_inst(&mut self, inst: RiscvJTypeInstruction, inst_size: u64)
        requires
            inst.rd < 32 && inst.wf(),
            inst.opcode == RiscvOpcode::JAL ==> old(self).pc() + inst_size <= u64::MAX,
        ensures
            final(self).regs() == jtype_regs(old(self).regs(), old(self).pc(), inst_size, inst),
            final(self).pc() == jtype_pc(old(self).pc(), inst_size, inst),
            final(self).mem() == old(self).mem(),
            final(self).is_halted() == old(self).is_halted(),
    {
        if inst.opcode == RiscvOpcode::JAL {
            let pc = self.program_counter;
            self.write_reg(inst.rd, pc + inst_size);
            let new_program_counter = sign_extend_u32_to_u64(inst.parse_imm()).wrapping_add(pc);
            self.program_counter = new_program_counter.wrapping_sub(inst_size);
        }
    }
}

/// The low `size` bytes of `v` (all of it for 8).
pub open spec fn low_bytes_of(v: u64, size: nat) -> u64 {
    if size == 1 {
        (v as u8) as u64
    } else if size == 2 {
        (v as u16) as u64
    } else if size == 4 {
        (v as u32) as u64
    } else {
        v
    }
}

/// The word of an I-type instruction built from these fields (the immediate
/// keeps its low 12 bits).
pub open spec fn i_word(op: RiscvOpcode, rd: u8, f3: u8, rs1: u8, imm: u32) -> u32 {
    RiscvITypeInstruction { opcode: op, rd, funct3: f3, rs1, imm: imm as u16 }.to_word()
}

pub open spec fn r_word(op: RiscvOpcode, rd: u8, f3: u8, rs1: u8, rs2: u8, f7: u8) -> u32 {
    RiscvRTypeInstruction { opcode: op, rd, funct3: f3, rs1, rs2, funct7: f7 }.to_word()
}

pub open spec fn s_word(op: RiscvOpcode, f3: u8, rs1: u8, rs2: u8, imm: u32) -> u32 {
    RiscvSTypeInstruction {
        opcode: op,
        imm_low5: (imm & 0x1f) as u8,
        funct3: f3,
        rs1,
        rs2,
        imm_hi7: ((imm >> 5u32) & 0x7f) as u8,
    }.to_word()
}

pub open spec fn b_word(op: RiscvOpcode, f3: u8, rs1: u8, rs2: u8, imm: u32) -> u32 {
    RiscvBTypeInstruction {
        opcode: op,
        imm_bit11: ((imm >> 11u32) & 1) as u8,
        imm_bits_4_1: ((imm >> 1u32) & 0xf) as u8,
        funct3: f3,
        rs1,
        rs2,
        imm_bits_10_5: ((imm >> 5u32) & 0x3f) as u8,
        imm_bit12: ((imm >> 12u32) & 1) as u8,
    }.to_word()
}

pub open spec fn u_word(op: RiscvOpcode, rd: u8, imm: u32) -> u32 {
    RiscvUTypeInstruction { opcode: op, rd, imm: imm >> 12u32 }.to_word()
}

pub open spec fn j_word(op: RiscvOpcode, rd: u8, imm: u32) -> u32 {
    RiscvJTypeInstruction {
        opcode: op,
        rd,
        imm_bits_19_12: ((imm >> 12u32) & 0xff) as u8,
        imm_bit11: ((imm >> 11u32) & 1) as u8,
        imm_bits_10_1: ((imm >> 1u32) & 0x3ff) as u16,
        imm_bit20: ((imm >> 20u32) & 1) as u8,
    }.to_word()
}

/// `f(imm)` where the immediate is defined; `None` (the instruction is
/// rejected) where it is not.
pub open spec fn with_imm(imm: Option<u32>, w: spec_fn(u32) -> u32) -> Option<u32> {
    match imm {
        Some(i) => Some(w(i)),
        None => None,
    }
}

/// The full-size instruction a CR-type one stands for (C.JR, C.MV, C.JALR,
/// C.EBREAK, C.ADD); `word` where it stands for none of them.
pub open spec fn expand_cr(i: RiscvCRTypeInstruction, word: u32) -> Option<u32> {
    if i.funct4 == 8 && i.opcode == RiscvCompressedOpcode::C2 {
        if i.rs2 == 0 {
            Some(i_word(RiscvOpcode::JALR, 0, 0, i.rd_rs1, 0))
        } else {
            Some(r_word(RiscvOpcode::OP, i.rd_rs1, 0, i.rs2, 0, 0))
        }
    } else if i.funct4 == 9 && i.opcode == RiscvCompressedOpcode::C2 {
        if i.rs2 == 0 {
            if i.rd_rs1 != 0 {
                Some(i_word(RiscvOpcode::JALR, 1, 0, i.rd_rs1, 0))
            } else {
                Some(i_word(RiscvOpcode::SYSTEM, 0, 0, 0, 1))
            }
        } else {
            Some(r_word(RiscvOpcode::OP, i.rd_rs1, 0, i.rd_rs1, i.rs2, 0))
        }
    } else {
        Some(word)
    }
}

/// C.SLLI, C.LWSP, C.LDSP, C.LI, C.LUI, C.ADDI16SP, C.ADDI, C.ADDIW.
pub open spec fn expand_ci(i: RiscvCITypeInstruction, word: u32) -> Option<u32> {
    let rd = i.rd_rs1;
    let imm = i.imm_value();
    if i.opcode == RiscvCompressedOpcode::C2 && i.funct3 == 0 {
        with_imm(imm, |v: u32| i_word(RiscvOpcode::OPIMM, rd, 1, rd, v))
    } else if i.opcode == RiscvCompressedOpcode::C2 && i.funct3 == 2 {
        with_imm(imm, |v: u32| i_word(RiscvOpcode::LOAD, rd, 2, 2, v))
    } else if i.opcode == RiscvCompressedOpcode::C2 && i.funct3 == 3 {
        with_imm(imm, |v: u32| i_word(RiscvOpcode::LOAD, rd, 3, 2, v))
    } else if i.opcode == RiscvCompressedOpcode::C1 && i.funct3 == 2 {
        with_imm(imm, |v: u32| i_word(RiscvOpcode::OPIMM, rd, 0, 0, v))
    } else if i.opcode == RiscvCompressedOpcode::C1 && i.funct3 == 3 {
        if rd != 2 {
            with_imm(imm, |v: u32| u_word(RiscvOpcode::LUI, rd, v))
        } else {
            with_imm(imm, |v: u32| i_word(RiscvOpcode::OPIMM, 2, 0, 2, v))
        }
    } else if i.opcode == RiscvCompressedOpcode::C1 && i.funct3 == 0 {
        with_imm(imm, |v: u32| i_word(RiscvOpcode::OPIMM, rd, 0, rd, v))
    } else if i.opcode == RiscvCompressedOpcode::C1 && i.funct3 == 1 {
        with_imm(imm, |v: u32| i_word(RiscvOpcode::OPIMM32, rd, 0, rd, v))
    } else {
        Some(word)
    }
}

/// C.SWSP, C.SDSP.
pub open spec fn expand_css(i: RiscvCSSTypeInstruction, word: u32) -> Option<u32> {
    if i.opcode == RiscvCompressedOpcode::C2 && i.funct3 == 6 {
        with_imm(i.imm_value(), |v: u32| s_word(RiscvOpcode::STORE, 2, 2, i.rs2, v))
    } else if i.opcode == RiscvCompressedOpcode::C2 && i.funct3 == 7 {
        with_imm(i.imm_value(), |v: u32| s_word(RiscvOpcode::STORE, 3, 2, i.rs2, v))
    } else {
        Some(word)
    }
}

/// C.ADDI4SPN.
pub open spec fn expand_ciw(i: RiscvCIWTypeInstruction, word: u32) -> Option<u32> {
    if i.opcode == RiscvCompressedOpcode::C0 && i.funct3 == 0 {
        with_imm(i.imm_value(), |v: u32| i_word(RiscvOpcode::OPIMM, (i.compressed_rd + 8) as u8, 0, 2, v))
    } else {
        Some(word)
    }
}

/// C.LW, C.LD.
pub open spec fn expand_cl(i: RiscvCLTypeInstruction, word: u32) -> Option<u32> {
    let rd = (i.compressed_rd + 8) as u8;
    let rs1 = (i.compressed_rs1 + 8) as u8;
    if i.opcode == RiscvCompressedOpcode::C0 && i.funct3 == 2 {
        with_imm(i.imm_value(), |v: u32| i_word(RiscvOpcode::LOAD, rd, 2, rs1, v))
    } else if i.opcode == RiscvCompressedOpcode::C0 && i.funct3 == 3 {
        with_imm(i.imm_value(), |v: u32| i_word(RiscvOpcode::LOAD, rd, 3, rs1, v))
    } else {
        Some(word)
    }
}

/// C.SW, C.SD.
pub open spec fn expand_cs(i: RiscvCSTypeInstruction, word: u32) -> Option<u32> {
    let rs1 = (i.compressed_rs1 + 8) as u8;
    let rs2 = (i.compressed_rs2 + 8) as u8;
    if i.opcode == RiscvCompressedOpcode::C0 && i.funct3 == 6 {
        with_imm(i.imm_value(), |v: u32| s_word(RiscvOpcode::STORE, 2, rs1, rs2, v))
    } else if i.opcode == RiscvCompressedOpcode::C0 && i.funct3 == 7 {
        with_imm(i.imm_value(), |v: u32| s_word(RiscvOpcode::STORE, 3, rs1, rs2, v))
    } else {
        Some(word)
    }
}

/// C.AND, C.OR, C.XOR, C.SUB, C.ADDW, C.SUBW.
pub open spec fn expand_ca(i: RiscvCATypeInstruction, word: u32) -> Option<u32> {
    let rd = (i.compressed_rd_rs1 + 8) as u8;
    let rs2 = (i.compressed_rs2 + 8) as u8;
    if i.opcode != RiscvCompressedOpcode::C1 {
        Some(word)
    } else if i.funct6 == 0x23 && i.funct2 == 3 {
        Some(r_word(RiscvOpcode::OP, rd, 7, rd, rs2, 0))
    } else if i.funct6 == 0x23 && i.funct2 == 2 {
        Some(r_word(RiscvOpcode::OP, rd, 6, rd, rs2, 0))
    } else if i.funct6 == 0x23 && i.funct2 == 1 {
        Some(r_word(RiscvOpcode::OP, rd, 4, rd, rs2, 0))
    } else if i.funct6 == 0x23 && i.funct2 == 0 {
        Some(r_word(RiscvOpcode::OP, rd, 0, rd, rs2, 0x20))
    } else if i.funct6 == 0x27 && i.funct2 == 1 {
        Some(r_word(RiscvOpcode::OP32, rd, 0, rd, rs2, 0))
    } else if i.funct6 == 0x27 && i.funct2 == 0 {
        Some(r_word(RiscvOpcode::OP32, rd, 0, rd, rs2, 0x20))
    } else {
        Some(word)
    }
}

/// C.BEQZ, C.BNEZ, C.SRLI, C.SRAI, C.ANDI.
pub open spec fn expand_cb(i: RiscvCBTypeInstruction, word: u32) -> Option<u32> {
    let rd = (i.compressed_rd_rs1 + 8) as u8;
    let f2 = i.imm_part2 & 0b11;
    if i.opcode == RiscvCompressedOpcode::C1 && i.funct3 == 6 {
        with_imm(i.imm_value(), |v: u32| b_word(RiscvOpcode::BRANCH, 0, rd, 0, v))
    } else if i.opcode == RiscvCompressedOpcode::C1 && i.funct3 == 7 {
        with_imm(i.imm_value(), |v: u32| b_word(RiscvOpcode::BRANCH, 1, rd, 0, v))
    } else if i.opcode == RiscvCompressedOpcode::C1 && i.funct3 == 4 {
        if f2 == 0 {
            with_imm(i.imm_value(), |v: u32| i_word(RiscvOpcode::OPIMM, rd, 5, rd, v))
        } else if f2 == 1 {
            with_imm(i.imm_value(), |v: u32| i_word(RiscvOpcode::OPIMM, rd, 5, rd, v | 0x400))
        } else if f2 == 2 {
            with_imm(i.imm_value(), |v: u32| i_word(RiscvOpcode::OPIMM, rd, 7, rd, v))
        } else {
            Some(word)
        }
    } else {
        Some(word)
    }
}

/// C.J.
pub open spec fn expand_cj(i: RiscvCJTypeInstruction, word: u32) -> Option<u32> {
    if i.opcode == RiscvCompressedOpcode::C1 && i.funct3 == 5 {
        with_imm(i.imm_value(), |v: u32| j_word(RiscvOpcode::JAL, 0, v))
    } else {
        Some(word)
    }
}

/// The full-size instruction word that the compressed instruction `c` (the
/// low half of `word`) stands for; `word` itself where `c` is of a known
/// format but no instruction the emulator expands; `None` where `c` is of no
/// known format or its immediate is reserved.
pub open spec fn expand_compressed(c: u16, word: u32) -> Option<u32> {
    match compressed_format(c) {
        None => None,
        Some(RiscvCompressedInstType::CRType) => expand_cr(RiscvCRTypeInstruction::from_half(c).unwrap(), word),
        Some(RiscvCompressedInstType::CIType) => expand_ci(RiscvCITypeInstruction::from_half(c).unwrap(), word),
        Some(RiscvCompressedInstType::CSSType) => expand_css(RiscvCSSTypeInstruction::from_half(c).unwrap(), word),
        Some(RiscvCompressedInstType::CIWType) => expand_ciw(RiscvCIWTypeInstruction::from_half(c).unwrap(), word),
        Some(RiscvCompressedInstType::CLType) => expand_cl(RiscvCLTypeInstruction::from_half(c).unwrap(), word),
        Some(RiscvCompressedInstType::CSType) => expand_cs(RiscvCSTypeInstruction::from_half(c).unwrap(), word),
        Some(RiscvCompressedInstType::CAType) => expand_ca(RiscvCATypeInstruction::from_half(c).unwrap(), word),
        Some(RiscvCompressedInstType::CBType) => expand_cb(RiscvCBTypeInstruction::from_half(c).unwrap(), word),
        Some(RiscvCompressedInstType::CJType) => expand_cj(RiscvCJTypeInstruction::from_half(c).unwrap(), word),
    }
}

fn i_word_of(i: RiscvITypeInstruction) -> (r: u32)
    ensures
        r == i.to_word(),
{
    let b = i.pack();
    proof {
        lemma_be_u32_roundtrip(i.to_word());
    }
    u32_from_msb_bytes(&b)
}

fn r_word_of(i: RiscvRTypeInstruction) -> (r: u32)
    ensures
        r == i.to_word(),
{
    let b = i.pack();
    proof {
        lemma_be_u32_roundtrip(i.to_word());
    }
    u32_from_msb_bytes(&b)
}

fn s_word_of(i: RiscvSTypeInstruction) -> (r: u32)
    ensures
        r == i.to_word(),
{
    let b = i.pack();
    proof {
        lemma_be_u32_roundtrip(i.to_word());
    }
    u32_from_msb_bytes(&b)
}

fn b_word_of(i: RiscvBTypeInstruction) -> (r: u32)
    ensures
        r == i.to_word(),
{
    let b = i.pack();
    proof {
        lemma_be_u32_roundtrip(i.to_word());
    }
    u32_from_msb_bytes(&b)
}

fn u_word_of(i: RiscvUTypeInstruction) -> (r: u32)
    ensures
        r == i.to_word(),
{
    let b = i.pack();
    proof {
        lemma_be_u32_roundtrip(i.to_word());
    }
    u32_from_msb_bytes(&b)
}

fn j_word_of(i: RiscvJTypeInstruction) -> (r: u32)
    ensures
        r == i.to_word(),
{
    let b = i.pack();
    proof {
        lemma_be_u32_roundtrip(i.to_word());
    }
    u32_from_msb_bytes(&b)
}

/// The full-size instruction a compressed one stands for (see
/// [`expand_compressed`]).
pub fn expand(compressed_inst: u16, instruction: u32) -> (r: Option<u32>)
    ensures
        r == expand_compressed(compressed_inst, instruction),
{
    let bytes = u16_to_msb_bytes(compressed_inst);
    proof {
        lemma_be_u16_roundtrip(compressed_inst);
    }
    assert(be_u16(bytes@) == compressed_inst);
    match get_compressed_instruction_type(compressed_inst)? {
        RiscvCompressedInstType::CRType => {
            let inst = RiscvCRTypeInstruction::unpack(&bytes).unwrap();
            if inst.funct4 == 8 && inst.opcode == RiscvCompressedOpcode::C2 {
                if inst.rs2 == 0 {
                    Some(i_word_of(RiscvITypeInstruction::from(RiscvOpcode::JALR, 0, 0, inst.rd_rs1, 0)))
                } else {
                    Some(r_word_of(RiscvRTypeInstruction { opcode: RiscvOpcode::OP, rd: inst.rd_rs1, funct3: 0, rs1: inst.rs2, rs2: 0, funct7: 0 }))
                }
            } else if inst.funct4 == 9 && inst.opcode == RiscvCompressedOpcode::C2 {
                if inst.rs2 == 0 {
                    if inst.rd_rs1 != 0 {
                        Some(i_word_of(RiscvITypeInstruction::from(RiscvOpcode::JALR, 1, 0, inst.rd_rs1, 0)))
                    } else {
                        Some(i_word_of(RiscvITypeInstruction::from(RiscvOpcode::SYSTEM, 0, 0, 0, 1)))
                    }
                } else {
                    Some(r_word_of(RiscvRTypeInstruction { opcode: RiscvOpcode::OP, rd: inst.rd_rs1, funct3: 0, rs1: inst.rd_rs1, rs2: inst.rs2, funct7: 0 }))
                }
            } else {
                Some(instruction)
            }
        },
        RiscvCompressedInstType::CIType => {
            let inst = RiscvCITypeInstruction::unpack(&bytes).unwrap();
            let rd = inst.rd_rs1;
            if inst.opcode == RiscvCompressedOpcode::C2 && inst.funct3 == 0 {
                Some(i_word_of(RiscvITypeInstruction::from(RiscvOpcode::OPIMM, rd, 1, rd, inst.parse_imm()?)))
            } else if inst.opcode == RiscvCompressedOpcode::C2 && inst.funct3 == 2 {
                Some(i_word_of(RiscvITypeInstruction::from(RiscvOpcode::LOAD, rd, 2, 2, inst.parse_imm()?)))
            } else if inst.opcode == RiscvCompressedOpcode::C2 && inst.funct3 == 3 {
                Some(i_word_of(RiscvITypeInstruction::from(RiscvOpcode::LOAD, rd, 3, 2, inst.parse_imm()?)))
            } else if inst.opcode == RiscvCompressedOpcode::C1 && inst.funct3 == 2 {
                Some(i_word_of(RiscvITypeInstruction::from(RiscvOpcode::OPIMM, rd, 0, 0, inst.parse_imm()?)))
            } else if inst.opcode == RiscvCompressedOpcode::C1 && inst.funct3 == 3 {
                if rd != 2 {
                    Some(u_word_of(RiscvUTypeInstruction::from(RiscvOpcode::LUI, rd, inst.parse_imm()?)))
                } else {
                    Some(i_word_of(RiscvITypeInstruction::from(RiscvOpcode::OPIMM, 2, 0, 2, inst.parse_imm()?)))
                }
            } else if inst.opcode == RiscvCompressedOpcode::C1 && inst.funct3 == 0 {
                Some(i_word_of(RiscvITypeInstruction::from(RiscvOpcode::OPIMM, rd, 0, rd, inst.parse_imm()?)))
            } else if inst.opcode == RiscvCompressedOpcode::C1 && inst.funct3 == 1 {
                Some(i_word_of(RiscvITypeInstruction::from(RiscvOpcode::OPIMM32, rd, 0, rd, inst.parse_imm()?)))
            } else {
                Some(instruction)
            }
        },
        RiscvCompressedInstType::CSSType => {
            let inst = RiscvCSSTypeInstruction::unpack(&bytes).unwrap();
            if inst.opcode == RiscvCompressedOpcode::C2 && inst.funct3 == 6 {
                Some(s_word_of(RiscvSTypeInstruction::from(RiscvOpcode::STORE, 2, 2, inst.rs2, inst.parse_imm()?)))
            } else if inst.opcode == RiscvCompressedOpcode::C2 && inst.funct3 == 7 {
                Some(s_word_of(RiscvSTypeInstruction::from(RiscvOpcode::STORE, 3, 2, inst.rs2, inst.parse_imm()?)))
            } else {
                Some(instruction)
            }
        },
        RiscvCompressedInstType::CIWType => {
            let inst = RiscvCIWTypeInstruction::unpack(&bytes).unwrap();
            if inst.opcode == RiscvCompressedOpcode::C0 && inst.funct3 == 0 {
                Some(i_word_of(RiscvITypeInstruction::from(RiscvOpcode::OPIMM, inst.parse_rd(), 0, 2, inst.parse_imm()?)))
            } else {
                Some(instruction)
            }
        },
        RiscvCompressedInstType::CLType => {
            let inst = RiscvCLTypeInstruction::unpack(&bytes).unwrap();
            if inst.opcode == RiscvCompressedOpcode::C0 && inst.funct3 == 2 {
                Some(i_word_of(RiscvITypeInstruction::from(RiscvOpcode::LOAD, inst.parse_rd(), 2, inst.parse_rs1(), inst.parse_imm()?)))
            } else if inst.opcode == RiscvCompressedOpcode::C0 && inst.funct3 == 3 {
                Some(i_word_of(RiscvITypeInstruction::from(RiscvOpcode::LOAD, inst.parse_rd(), 3, inst.parse_rs1(), inst.parse_imm()?)))
            } else {
                Some(instruction)
            }
        },
        RiscvCompressedInstType::CSType => {
            let inst = RiscvCSTypeInstruction::unpack(&bytes).unwrap();
            if inst.opcode == RiscvCompressedOpcode::C0 && inst.funct3 == 6 {
                Some(s_word_of(RiscvSTypeInstruction::from(RiscvOpcode::STORE, 2, inst.parse_rs1(), inst.parse_rs2(), inst.parse_imm()?)))
            } else if inst.opcode == RiscvCompressedOpcode::C0 && inst.funct3 == 7 {
                Some(s_word_of(RiscvSTypeInstruction::from(RiscvOpcode::STORE, 3, inst.parse_rs1(), inst.parse_rs2(), inst.parse_imm()?)))
            } else {
                Some(instruction)
            }
        },
        RiscvCompressedInstType::CAType => {
            let inst = RiscvCATypeInstruction::unpack(&bytes).unwrap();
            let rd = inst.parse_rd_rs1();
            let rs2 = inst.parse_rs2();
            if inst.opcode != RiscvCompressedOpcode::C1 {
                Some(instruction)
            } else if inst.funct6 == 0x23 && inst.funct2 == 3 {
                Some(r_word_of(RiscvRTypeInstruction { opcode: RiscvOpcode::OP, rd, funct3: 7, rs1: rd, rs2, funct7: 0 }))
            } else if inst.funct6 == 0x23 && inst.funct2 == 2 {
                Some(r_word_of(RiscvRTypeInstruction { opcode: RiscvOpcode::OP, rd, funct3: 6, rs1: rd, rs2, funct7: 0 }))
            } else if inst.funct6 == 0x23 && inst.funct2 == 1 {
                Some(r_word_of(RiscvRTypeInstruction { opcode: RiscvOpcode::OP, rd, funct3: 4, rs1: rd, rs2, funct7: 0 }))
            } else if inst.funct6 == 0x23 && inst.funct2 == 0 {
                Some(r_word_of(RiscvRTypeInstruction { opcode: RiscvOpcode::OP, rd, funct3: 0, rs1: rd, rs2, funct7: 0x20 }))
            } else if inst.funct6 == 0x27 && inst.funct2 == 1 {
                Some(r_word_of(RiscvRTypeInstruction { opcode: RiscvOpcode::OP32, rd, funct3: 0, rs1: rd, rs2, funct7: 0 }))
            } else if inst.funct6 == 0x27 && inst.funct2 == 0 {
                Some(r_word_of(RiscvRTypeInstruction { opcode: RiscvOpcode::OP32, rd, funct3: 0, rs1: rd, rs2, funct7: 0x20 }))
            } else {
                Some(instruction)
            }
        },
        RiscvCompressedInstType::CBType => {
            let inst = RiscvCBTypeInstruction::unpack(&bytes).unwrap();
            let rd = inst.parse_rd_rs1();
            if inst.opcode == RiscvCompressedOpcode::C1 && inst.funct3 == 6 {
                Some(b_word_of(RiscvBTypeInstruction::from(RiscvOpcode::BRANCH, 0, rd, 0, inst.parse_imm()?)))
            } else if inst.opcode == RiscvCompressedOpcode::C1 && inst.funct3 == 7 {
                Some(b_word_of(RiscvBTypeInstruction::from(RiscvOpcode::BRANCH, 1, rd, 0, inst.parse_imm()?)))
            } else if inst.opcode == RiscvCompressedOpcode::C1 && inst.funct3 == 4 {
                let f2 = inst.parse_funct2();
                if f2 == 0 {
                    Some(i_word_of(RiscvITypeInstruction::from(RiscvOpcode::OPIMM, rd, 5, rd, inst.parse_imm()?)))
                } else if f2 == 1 {
                    Some(i_word_of(RiscvITypeInstruction::from(RiscvOpcode::OPIMM, rd, 5, rd, inst.parse_imm()? | 0x400)))
                } else if f2 == 2 {
                    Some(i_word_of(RiscvITypeInstruction::from(RiscvOpcode::OPIMM, rd, 7, rd, inst.parse_imm()?)))
                } else {
                    Some(instruction)
                }
            } else {
                Some(instruction)
            }
        },
        RiscvCompressedInstType::CJType => {
            let inst = RiscvCJTypeInstruction::unpack(&bytes).unwrap();
            if inst.opcode == RiscvCompressedOpcode::C1 && inst.funct3 == 5 {
                Some(j_word_of(RiscvJTypeInstruction::from(RiscvOpcode::JAL, 0, inst.parse_imm()?)))
            } else {
                Some(instruction)
            }
        },
    }
}

/// The instruction word at `pc`: four bytes, least significant first (RISC-V
/// Volume I, section 1.5).
pub open spec fn fetch_word(mem: Map<u64, u8>, pc: u64) -> u32 {
    le_combine(bytes_at(mem, pc, 4)) as u32
}

/// The size of the instruction that a word starts: 2 bytes where its low two
/// bits are not both set.
pub open spec fn inst_size_of(word: u32) -> u64 {
    if word & 0b11 != 0b11 {
        2
    } else {
        4
    }
}

/// The full-size word the emulator executes for a fetched word.
pub open spec fn decoded_word(word: u32) -> Option<u32> {
    if word & 0b11 != 0b11 {
        expand_compressed(word as u16, word)
    } else {
        Some(word)
    }
}

/// The opcode of a full-size word.
pub open spec fn opcode_of(w: u32) -> Option<RiscvOpcode> {
    RiscvOpcode::decode((w & 0x7f) as u8)
}

/// Whether executing `w` (of `size` bytes) at `pc` stays within what the
/// emulator defines: no division by zero, loads and stores inside accessible
/// memory, and a program counter that does not overflow.
pub open spec fn exec_defined<M: EmulatorMemory>(pc: u64, regs: Seq<u64>, m: M, w: u32, size: u64) -> bool {
    match opcode_of(w) {
        None => true,
        Some(op) => match op.format() {
            RiscvInstType::RType => {
                let i = RiscvRTypeInstruction::from_word(w).unwrap();
                !rtype_divides_by_zero(i.opcode, i.funct3, i.funct7, reg(regs, i.rs2)) && pc + size <= u64::MAX
            },
            RiscvInstType::IType => {
                let i = RiscvITypeInstruction::from_word(w).unwrap();
                &&& is_jalr(i) ==> pc + size <= u64::MAX
                &&& is_load(i) ==> m.can_access(effective_address(reg(regs, i.rs1), i.imm_value()), load_size(i.funct3))
                &&& itype_pc(regs, pc, size, i) + size <= u64::MAX
            },
            RiscvInstType::SType => {
                let i = RiscvSTypeInstruction::from_word(w).unwrap();
                &&& i.opcode == RiscvOpcode::STORE && store_size(i.funct3) > 0 ==> m.can_access(
                    effective_address(reg(regs, i.rs1), i.imm_value()),
                    store_size(i.funct3),
                )
                &&& pc + size <= u64::MAX
            },
            RiscvInstType::BType => {
                let i = RiscvBTypeInstruction::from_word(w).unwrap();
                btype_pc(regs, pc, size, i) + size <= u64::MAX
            },
            RiscvInstType::UType => pc + size <= u64::MAX,
            RiscvInstType::JType => {
                let i = RiscvJTypeInstruction::from_word(w).unwrap();
                &&& i.opcode == RiscvOpcode::JAL ==> pc + size <= u64::MAX
                &&& jtype_pc(pc, size, i) + size <= u64::MAX
            },
        },
    }
}

/// Whether `w` is an environment call.
pub open spec fn is_environment_call(w: u32) -> bool {
    &&& opcode_of(w) matches Some(op)
    &&& op.format() == RiscvInstType::IType
    &&& is_ecall(RiscvITypeInstruction::from_word(w).unwrap())
}

/// The program counter (before it moves past the instruction) and the
/// registers after executing `w` of `size` bytes at `pc`, `mem` holding the
/// bytes that a load reads.
pub open spec fn exec_pc_regs(pc: u64, regs: Seq<u64>, mem: Map<u64, u8>, w: u32, size: u64) -> (u64, Seq<u64>) {
    match opcode_of(w) {
        None => (pc, regs),
        Some(op) => match op.format() {
            RiscvInstType::RType => (pc, rtype_regs(regs, RiscvRTypeInstruction::from_word(w).unwrap())),
            RiscvInstType::IType => {
                let i = RiscvITypeInstruction::from_word(w).unwrap();
                let raw = le_combine(bytes_at(mem, effective_address(reg(regs, i.rs1), i.imm_value()), load_size(i.funct3)));
                (itype_pc(regs, pc, size, i), itype_regs(regs, pc, size, i, raw))
            },
            RiscvInstType::SType => (pc, regs),
            RiscvInstType::BType => (btype_pc(regs, pc, size, RiscvBTypeInstruction::from_word(w).unwrap()), regs),
            RiscvInstType::UType => (pc, utype_regs(regs, pc, RiscvUTypeInstruction::from_word(w).unwrap())),
            RiscvInstType::JType => {
                let i = RiscvJTypeInstruction::from_word(w).unwrap();
                (jtype_pc(pc, size, i), jtype_regs(regs, pc, size, i))
            },
        },
    }
}

/// The memory bytes after executing `w`: a store writes the low bytes of
/// `rs2`; every other instruction leaves memory as it is.
pub open spec fn exec_mem(regs: Seq<u64>, mem: Map<u64, u8>, w: u32) -> Map<u64, u8> {
    match opcode_of(w) {
        Some(op) => if op.format() == RiscvInstType::SType {
            let i = RiscvSTypeInstruction::from_word(w).unwrap();
            if i.opcode == RiscvOpcode::STORE && store_size(i.funct3) > 0 {
                store_le(
                    mem,
                    effective_address(reg(regs, i.rs1), i.imm_value()),
                    store_size(i.funct3),
                    low_bytes_of(reg(regs, i.rs2), store_size(i.funct3)),
                )
            } else {
                mem
            }
        } else {
            mem
        },
        None => mem,
    }
}

/// The fields of a word, shifted down and masked, fit their widths.
proof fn lemma_word_fields(w: u32)
    ensures
        ((w >> 7u32) & 0x1f) < 32,
        ((w >> 15u32) & 0x1f) < 32,
        ((w >> 20u32) & 0x1f) < 32,
        ((w >> 20u32) & 0xfff) < 0x1000,
        ((w >> 25u32) & 0x7f) < 128,
        ((w >> 7u32) & 0x1) < 2,
        ((w >> 8u32) & 0xf) < 16,
        ((w >> 25u32) & 0x3f) < 64,
        ((w >> 31u32) & 0x1) < 2,
        ((w >> 12u32) & 0xff) < 256,
        ((w >> 20u32) & 0x1) < 2,
        ((w >> 21u32) & 0x3ff) < 1024,
        (((w >> 7u32) & 0x1f) as u8) as u32 == (w >> 7u32) & 0x1f,
        (((w >> 15u32) & 0x1f) as u8) as u32 == (w >> 15u32) & 0x1f,
        (((w >> 20u32) & 0x1f) as u8) as u32 == (w >> 20u32) & 0x1f,
        (((w >> 20u32) & 0xfff) as u16) as u32 == (w >> 20u32) & 0xfff,
        (((w >> 25u32) & 0x7f) as u8) as u32 == (w >> 25u32) & 0x7f,
        (((w >> 7u32) & 0x1) as u8) as u32 == (w >> 7u32) & 0x1,
        (((w >> 8u32) & 0xf) as u8) as u32 == (w >> 8u32) & 0xf,
        (((w >> 25u32) & 0x3f) as u8) as u32 == (w >> 25u32) & 0x3f,
        (((w >> 31u32) & 0x1) as u8) as u32 == (w >> 31u32) & 0x1,
        (((w >> 12u32) & 0xff) as u8) as u32 == (w >> 12u32) & 0xff,
        (((w >> 20u32) & 0x1) as u8) as u32 == (w >> 20u32) & 0x1,
        (((w >> 21u32) & 0x3ff) as u16) as u32 == (w >> 21u32) & 0x3ff,
{
    lemma_field_u32(w, 7, 0x1f);
    lemma_field_u32(w, 15, 0x1f);
    lemma_field_u32(w, 20, 0x1f);
    lemma_field_u32(w, 20, 0xfff);
    lemma_field_u32(w, 25, 0x7f);
    lemma_field_u32(w, 7, 0x1);
    lemma_field_u32(w, 8, 0xf);
    lemma_field_u32(w, 25, 0x3f);
    lemma_field_u32(w, 31, 0x1);
    lemma_field_u32(w, 12, 0xff);
    lemma_field_u32(w, 20, 0x1);
    lemma_field_u32(w, 21, 0x3ff);
}

impl<M: EmulatorMemory> Riscv64Cpu<M> {
    /// Runs one instruction. `None`, and nothing changed, where the hart is
    /// halted or the instruction is of no known encoding; an environment call
    /// stops before it is served (see [`TickEvent::EnvironmentCall`]).
    pub fn tick(&mut self) -> (r: Option<TickEvent>)
        requires
            !old(self).is_halted() ==> old(self).mem().can_access(old(self).pc(), 4),
            !old(self).is_halted() ==> {
                let w0 = fetch_word(old(self).mem().byte_view(), old(self).pc());
                decoded_word(w0) matches Some(w) ==> exec_defined(
                    old(self).pc(),
                    old(self).regs(),
                    old(self).mem(),
                    w,
                    inst_size_of(w0),
                )
            },
        ensures
            final(self).is_halted() == old(self).is_halted(),
            ({
                let pc = old(self).pc();
                let regs = old(self).regs();
                let mem = old(self).mem().byte_view();
                let w0 = fetch_word(mem, pc);
                let size = inst_size_of(w0);
                if old(self).is_halted() || decoded_word(w0) is None || opcode_of(decoded_word(w0).unwrap()) is None {
                    &&& r is None
                    &&& final(self).pc() == pc && final(self).regs() == regs && final(self).mem() == old(self).mem()
                } else {
                    let w = decoded_word(w0).unwrap();
                    if is_environment_call(w) {
                        &&& r == Some(TickEvent::EnvironmentCall { inst_size: size })
                        &&& final(self).pc() == pc && final(self).regs() == regs && final(self).mem() == old(self).mem()
                    } else {
                        let (npc, nregs) = exec_pc_regs(pc, regs, mem, w, size);
                        &&& r == Some(TickEvent::Executed)
                        &&& final(self).pc() == npc + size
                        &&& final(self).regs() == nregs
                        &&& final(self).mem().byte_view() == exec_mem(regs, mem, w)
                        &&& forall|a: u64, s: nat| final(self).mem().can_access(a, s) == old(self).mem().can_access(a, s)
                    }
                }
            }),
    {
        if self.halted {
            return None;
        }
        let instruction = self.memory.read_u32_le(self.program_counter);
        let ghost w0 = instruction;
        let is_compressed = (instruction & 0b11) != 0b11;
        let inst_size: u64 = if is_compressed {
            2
        } else {
            4
        };
        let w = if is_compressed {
            expand(instruction as u16, instruction)?
        } else {
            instruction
        };
        let opcode = RiscvOpcode::from_primitive((w & 0b111_1111) as u8)?;
        let bytes = u32_to_msb_bytes(w);
        proof {
            lemma_be_u32_roundtrip(w);
            lemma_word_fields(w);
        }
        assert(be_u32(bytes@) == w);
        match opcode.get_type() {
            RiscvInstType::RType => {
                let inst = RiscvRTypeInstruction::unpack(&bytes).unwrap();
                self.execute_rtype_inst(inst);
            },
            RiscvInstType::IType => {
                let inst = RiscvITypeInstruction::unpack(&bytes).unwrap();
                let ecall = self.execute_itype_inst(inst, inst_size);
                if ecall {
                    return Some(TickEvent::EnvironmentCall { inst_size });
                }
            },
            RiscvInstType::SType => {
                let inst = RiscvSTypeInstruction::unpack(&bytes).unwrap();
                self.execute_stype_inst(inst);
            },
            RiscvInstType::BType => {
                let inst = RiscvBTypeInstruction::unpack(&bytes).unwrap();
                self.execute_btype_inst(inst, inst_size);
            },
            RiscvInstType::UType => {
                let inst = RiscvUTypeInstruction::unpack(&bytes).unwrap();
                self.execute_utype_inst(inst);
            },
            RiscvInstType::JType => {
                let inst = RiscvJTypeInstruction::unpack(&bytes).unwrap();
                self.execute_jtype_inst(inst, inst_size);
            },
        }
        self.program_counter = self.program_counter + inst_size;
        Some(TickEvent::Executed)
    }

    /// Moves past an environment call once it has been served.
    pub fn complete_environment_call(&mut self, inst_size: u64)
        requires
            old(self).pc() + inst_size <= u64::MAX,
        ensures
            final(self).pc() == old(self).pc() + inst_size,
            final(self).regs() == old(self).regs(),
            final(self).mem() == old(self).mem(),
            final(self).is_halted() == old(self).is_halted(),
    {
        self.program_counter = self.program_counter + inst_size;
    }
}

} // verus!
