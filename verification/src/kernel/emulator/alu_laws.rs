//! What the register-register instructions compute, stated in plain
//! arithmetic on the operands: sums and products modulo 2^64, quotients and
//! remainders that put the dividend back together, and the bitwise
//! operations bit by bit.
use crate::kernel::emulator::cpu::{branch_taken, itype_alu_value, load_size, rtype_value, sdiv64, sext32, srem64, store_size};
use crate::kernel::emulator::riscv_instruction::RiscvOpcode;
use vstd::arithmetic::power2::{lemma2_to64, pow2};
use vstd::bits::{lemma_low_bits_mask_values, lemma_u64_low_bits_mask_is_mod, lemma_u64_shr_is_div};
use vstd::prelude::*;

verus! {

/// 2^64, the modulus of the 64-bit registers.
pub open spec fn two64() -> int {
    0x1_0000_0000_0000_0000
}

/// The value of a register read as a two's complement number.
pub open spec fn signed(a: u64) -> int {
    if a < 0x8000_0000_0000_0000 {
        a as int
    } else {
        a - two64()
    }
}

/// XOR, OR and AND (OP with funct7 0 and funct3 4, 6, 7) write the bitwise
/// exclusive or, or and and of the two registers (so 5 and 3 give 6, 7 and
/// 1); the three differ from one another.
pub proof fn lemma_rtype_bitwise(a: u64, b: u64)
    ensures
        rtype_value(RiscvOpcode::OP, 4, 0, a, b) == Some(a ^ b),
        rtype_value(RiscvOpcode::OP, 6, 0, a, b) == Some(a | b),
        rtype_value(RiscvOpcode::OP, 7, 0, a, b) == Some(a & b),
{
}

/// ADD, SUB and MUL (funct3 0 with funct7 0, 0x20 and 1) write the sum, the
/// difference and the product of the two registers modulo 2^64; what SUB
/// writes, added to the second register, gives the first back.
pub proof fn lemma_rtype_add_sub_mul(a: u64, b: u64)
    ensures
        rtype_value(RiscvOpcode::OP, 0, 0, a, b) matches Some(s) && s as int == (a + b) % two64(),
        rtype_value(RiscvOpcode::OP, 0, 0x20, a, b) matches Some(d) && d as int == (a - b) % two64() && (d + b)
            % two64() == a as int,
        rtype_value(RiscvOpcode::OP, 0, 1, a, b) matches Some(p) && p as int == (a * b) % two64(),
{
    let s = vstd::wrapping::u64_specs::wrapping_add(a, b);
    let d = vstd::wrapping::u64_specs::wrapping_sub(a, b);
    if a + b > u64::MAX {
        assert(s as int == a + b - two64());
    } else {
        assert(s as int == a + b);
    }
    if a - b < 0 {
        assert(d as int == a - b + two64());
    } else {
        assert(d as int == a - b);
    }
}

/// MULHU (funct7 1, funct3 3) writes the upper 64 bits of the full 128-bit
/// product of the two registers taken as unsigned: together with what MUL
/// writes it makes up the whole product.
pub proof fn lemma_rtype_mulhu(a: u64, b: u64)
    ensures
        rtype_value(RiscvOpcode::OP, 3, 1, a, b) matches Some(h) && rtype_value(RiscvOpcode::OP, 0, 1, a, b) matches Some(
            l,
        ) && h * two64() + l == a * b,
{
    let x = a as int * b as int;
    assert(0 <= x < two64() * two64()) by (nonlinear_arith)
        requires
            x == a as int * b as int,
            0 <= a < two64(),
            0 <= b < two64(),
    ;
    assert(x % (two64() * two64()) == x) by (nonlinear_arith)
        requires
            0 <= x < two64() * two64(),
    ;
    assert((x / two64()) * two64() + x % two64() == x) by (nonlinear_arith);
    assert(0 <= x / two64() < two64()) by (nonlinear_arith)
        requires
            0 <= x < two64() * two64(),
    ;
}

/// SLTU and SLT (funct3 3 and 2) write 1 exactly where the first register
/// is below the second, compared as unsigned and as two's complement
/// numbers; else 0.
pub proof fn lemma_rtype_compare(a: u64, b: u64)
    ensures
        rtype_value(RiscvOpcode::OP, 3, 0, a, b) == Some(if a < b { 1u64 } else { 0u64 }),
        rtype_value(RiscvOpcode::OP, 2, 0, a, b) matches Some(v) && (v == 1 || v == 0),
{
}

/// SRL (funct3 5, funct7 0) divides the first register by 2 to the power of
/// the second register's value modulo 64, rounding down.
pub proof fn lemma_rtype_srl(a: u64, b: u64)
    ensures
        rtype_value(RiscvOpcode::OP, 5, 0, a, b) matches Some(v) && v as nat == a as nat / pow2((b % 64) as nat),
{
    lemma_low_bits_mask_values();
    lemma2_to64();
    lemma_u64_low_bits_mask_is_mod(b, 6);
    assert(b & 63 == b % 64);
    lemma_u64_shr_is_div(a, b & 63);
}

/// DIVU and REMU (funct7 1, funct3 5 and 7) put the dividend back
/// together: quotient times divisor plus remainder is the first register,
/// and the remainder is below the divisor (which is not 0).
pub proof fn lemma_rtype_divu_remu(a: u64, b: u64)
    requires
        b != 0,
    ensures
        rtype_value(RiscvOpcode::OP, 5, 1, a, b) matches Some(q) && rtype_value(RiscvOpcode::OP, 7, 1, a, b) matches Some(
            r,
        ) && q * b + r == a && r < b,
{
    let q = a / b;
    let r = a % b;
    assert(q * b + r == a) by (nonlinear_arith)
        requires
            q == a / b,
            r == a % b,
            b > 0,
    ;
}

/// Signed division truncates toward zero: for a divisor other than 0, the
/// quotient times the divisor plus the remainder is the dividend, the
/// remainder is smaller than the divisor in size and has the dividend's
/// sign (or is 0); dividing the smallest value by -1 gives it back with
/// remainder 0.
pub proof fn lemma_signed_div_rem(a: i64, b: i64)
    requires
        b != 0,
    ensures
        a == i64::MIN && b == -1 ==> sdiv64(a, b) == i64::MIN && srem64(a, b) == 0,
        !(a == i64::MIN && b == -1) ==> {
            let q = sdiv64(a, b) as int;
            let r = srem64(a, b) as int;
            &&& q * b + r == a
            &&& (if r < 0 { -r } else { r }) < (if b < 0 { -(b as int) } else { b as int })
            &&& r == 0 || (r < 0) == (a < 0)
        },
{
    let x = a as int;
    let d = b as int;
    if a == i64::MIN && b == -1 {
        assert(x * -1 == 0x8000_0000_0000_0000);
        assert(d * -1 == 1);
        assert((x * -1) / (d * -1) == 0x8000_0000_0000_0000) by (nonlinear_arith)
            requires
                x * -1 == 0x8000_0000_0000_0000,
                d * -1 == 1,
        ;
    } else if x == 0 {
        assert(sdiv64(a, b) == 0 && srem64(a, b) == 0);
        assert(sdiv64(a, b) as int * b == 0);
    } else if x > 0 && d > 0 {
        let q = x / d;
        let r = x % d;
        assert(q <= x && q * d + r == x && 0 <= r < d) by (nonlinear_arith)
            requires
                x > 0,
                d > 0,
                q == x / d,
                r == x % d,
        ;
        assert(sdiv64(a, b) as int == q);
        assert(srem64(a, b) as int == r);
    } else if x < 0 && d < 0 {
        let nx = x * -1;
        let nd = d * -1;
        let q = nx / nd;
        let r = nx % nd;
        assert(q * nd + r == nx && 0 <= r < nd && q <= nx) by (nonlinear_arith)
            requires
                nx > 0,
                nd > 0,
                q == nx / nd,
                r == nx % nd,
        ;
        if nd >= 2 {
            assert(q * 2 <= nx) by (nonlinear_arith)
                requires
                    q * nd + r == nx,
                    nd >= 2,
                    r >= 0,
                    q >= 0,
            ;
        } else {
            assert(nx != 0x8000_0000_0000_0000);
        }
        assert(q <= i64::MAX);
        assert(q * d + r * -1 == x) by (nonlinear_arith)
            requires
                q * nd + r == nx,
                nx == x * -1,
                nd == d * -1,
        ;
        assert(sdiv64(a, b) as int == q);
        assert(srem64(a, b) as int == r * -1);
    } else if x < 0 {
        let nx = x * -1;
        let q = nx / d;
        let r = nx % d;
        assert(q * d + r == nx && 0 <= r < d && q <= nx) by (nonlinear_arith)
            requires
                nx > 0,
                d > 0,
                q == nx / d,
                r == nx % d,
        ;
        assert((q * -1) * d + r * -1 == x) by (nonlinear_arith)
            requires
                q * d + r == nx,
                nx == x * -1,
        ;
        assert(sdiv64(a, b) as int == q * -1);
        assert(srem64(a, b) as int == r * -1);
    } else {
        let nd = d * -1;
        let q = x / nd;
        let r = x % nd;
        assert(q * nd + r == x && 0 <= r < nd && q <= x) by (nonlinear_arith)
            requires
                x > 0,
                nd > 0,
                q == x / nd,
                r == x % nd,
        ;
        assert((q * -1) * d + r == x) by (nonlinear_arith)
            requires
                q * nd + r == x,
                nd == d * -1,
        ;
        assert(sdiv64(a, b) as int == q * -1);
        assert(srem64(a, b) as int == r);
    }
}

/// SLL and SRA (funct3 1 with funct7 0, funct3 5 with funct7 0x20) shift
/// by the second register's value modulo 64, SRA keeping the sign.
pub proof fn lemma_rtype_shift_amount(a: u64, b: u64)
    ensures
        rtype_value(RiscvOpcode::OP, 1, 0, a, b) == Some(a << (b % 64)),
        rtype_value(RiscvOpcode::OP, 5, 0x20, a, b) == Some(((a as i64) >> (b % 64)) as u64),
{
    lemma_low_bits_mask_values();
    lemma2_to64();
    lemma_u64_low_bits_mask_is_mod(b, 6);
    assert(b & 63 == b % 64);
}

/// DIV and REM (funct7 1, funct3 4 and 6) write the signed quotient and
/// remainder of [`lemma_signed_div_rem`], for a divisor other than 0.
pub proof fn lemma_rtype_div_rem(a: u64, b: u64)
    ensures
        rtype_value(RiscvOpcode::OP, 4, 1, a, b) == Some(sdiv64(a as i64, b as i64) as u64),
        rtype_value(RiscvOpcode::OP, 6, 1, a, b) == Some(srem64(a as i64, b as i64) as u64),
{
}

/// ADDW, SUBW and MULW (OP-32) compute on the low 32 bits modulo 2^32 and
/// sign-extend the 32-bit result.
pub proof fn lemma_rtype_word(a: u64, b: u64)
    ensures
        rtype_value(RiscvOpcode::OP32, 0, 0, a, b) == Some(sext32(((a as u32 + b as u32) % 0x1_0000_0000) as u32)),
        rtype_value(RiscvOpcode::OP32, 0, 0x20, a, b) == Some(
            sext32(((a as u32 - b as u32) % 0x1_0000_0000) as u32),
        ),
        rtype_value(RiscvOpcode::OP32, 0, 1, a, b) == Some(sext32(((a as u32 * b as u32) % 0x1_0000_0000) as u32)),
{
    let x = a as u32;
    let y = b as u32;
    if x + y > u32::MAX {
        assert((x + y) % 0x1_0000_0000 == x + y - 0x1_0000_0000);
    } else {
        assert((x + y) % 0x1_0000_0000 == x + y);
    }
    if x - y < 0 {
        assert((x - y) % 0x1_0000_0000 == x - y + 0x1_0000_0000);
    } else {
        assert((x - y) % 0x1_0000_0000 == x - y);
    }
}

/// The register-immediate instructions ADDI, SLTI, SLTIU, XORI, ORI and ANDI
/// compute what ADD, SLT, SLTU, XOR, OR and AND compute with the
/// sign-extended immediate as second operand.
pub proof fn lemma_itype_as_rtype(f3: u8, a: u64, imm: u32)
    requires
        f3 == 0 || f3 == 2 || f3 == 3 || f3 == 4 || f3 == 6 || f3 == 7,
    ensures
        itype_alu_value(RiscvOpcode::OPIMM, f3, a, imm) == rtype_value(RiscvOpcode::OP, f3, 0, a, sext32(imm)),
        itype_alu_value(RiscvOpcode::OPIMM, f3, a, imm) is Some,
{
}

/// ADDIW adds the immediate to the low 32 bits modulo 2^32 and sign-extends,
/// as ADDW does with the immediate as second operand.
pub proof fn lemma_itype_addiw(a: u64, imm: u32)
    ensures
        itype_alu_value(RiscvOpcode::OPIMM32, 0, a, imm) == Some(sext32(((a as u32 + imm) % 0x1_0000_0000) as u32)),
{
    let x = a as u32;
    if x + imm > u32::MAX {
        assert((x + imm) % 0x1_0000_0000 == x + imm - 0x1_0000_0000);
    } else {
        assert((x + imm) % 0x1_0000_0000 == x + imm);
    }
}

/// The branches come in complementary pairs: BNE is taken exactly where BEQ
/// is not, BGE where BLT is not, BGEU where BLTU is not; BEQ is taken
/// exactly on equal registers, and BLTU exactly where SLTU writes 1.
pub proof fn lemma_branch_pairs(a: u64, b: u64)
    ensures
        branch_taken(0, a, b) == Some(a == b),
        branch_taken(1, a, b) matches Some(t) && branch_taken(0, a, b) == Some(!t),
        branch_taken(5, a, b) matches Some(t) && branch_taken(4, a, b) == Some(!t),
        branch_taken(7, a, b) matches Some(t) && branch_taken(6, a, b) == Some(!t),
        branch_taken(6, a, b) == Some(rtype_value(RiscvOpcode::OP, 3, 0, a, b) == Some(1u64)),
        branch_taken(4, a, b) == Some(rtype_value(RiscvOpcode::OP, 2, 0, a, b) == Some(1u64)),
{
}

/// Loads and stores of the same width move as many bytes: 1, 2, 4 and 8
/// for funct3 0 to 3, and the unsigned loads (funct3 4 to 6) as many as
/// their signed counterparts.
pub proof fn lemma_access_sizes(f3: u8)
    ensures
        f3 < 4 ==> load_size(f3) == store_size(f3) && store_size(f3) == if f3 == 0 {
            1nat
        } else if f3 == 1 {
            2nat
        } else if f3 == 2 {
            4nat
        } else {
            8nat
        },
        4 <= f3 < 7 ==> load_size(f3) == load_size((f3 - 4) as u8),
{
}

} // verus!
