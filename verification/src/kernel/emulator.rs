//! A RV64IMC user-mode CPU emulator.
pub mod alu_laws;
pub mod cpu;
pub mod riscv_instruction;
use vstd::prelude::*;
use riscv_instruction::sign_extend_from;

verus! {

/// The `size` bytes of the memory image `m` from `addr` on.
pub open spec fn bytes_at(m: Map<u64, u8>, addr: u64, size: nat) -> Seq<u8> {
    Seq::new(size, |i: int| m[(addr + i) as u64])
}

/// The value of 1, 2, 4 or 8 bytes read least significant byte first.
pub open spec fn le_combine(b: Seq<u8>) -> u64 {
    if b.len() == 1 {
        b[0] as u64
    } else if b.len() == 2 {
        (b[0] as u64) | ((b[1] as u64) << 8u64)
    } else if b.len() == 4 {
        (b[0] as u64) | ((b[1] as u64) << 8u64) | ((b[2] as u64) << 16u64) | ((b[3] as u64)
            << 24u64)
    } else if b.len() == 8 {
        (b[0] as u64) | ((b[1] as u64) << 8u64) | ((b[2] as u64) << 16u64) | ((b[3] as u64)
            << 24u64) | ((b[4] as u64) << 32u64) | ((b[5] as u64) << 40u64) | ((b[6] as u64)
            << 48u64) | ((b[7] as u64) << 56u64)
    } else {
        0
    }
}

/// The low `size` bytes of `val`, least significant first.
pub open spec fn le_split(val: u64, size: nat) -> Seq<u8> {
    Seq::new(size, |i: int| (val >> ((8 * i) as u64)) as u8)
}

/// The memory image `m` after the low `size` bytes of `val` are stored from
/// `addr` on, least significant byte first.
pub open spec fn store_le(m: Map<u64, u8>, addr: u64, size: nat, val: u64) -> Map<u64, u8> {
    Map::new(
        |a: u64| m.dom().contains(a),
        |a: u64|
            if addr <= a < addr + size {
                le_split(val, size)[a - addr]
            } else {
                m[a]
            },
    )
}

/// The low `size` bytes of `val`, as a number.
pub open spec fn low_bytes(val: u64, size: nat) -> u64 {
    if size == 1 {
        val & 0xff
    } else if size == 2 {
        val & 0xffff
    } else if size == 4 {
        val & 0xffff_ffff
    } else {
        val
    }
}

/// A load reads back what a store of the same size at the same address wrote:
/// the stored value cut to that many bytes.
pub proof fn lemma_store_then_load(m: Map<u64, u8>, addr: u64, size: nat, val: u64)
    requires
        size == 1 || size == 2 || size == 4 || size == 8,
        addr + size <= u64::MAX + 1,
        forall|i: nat| i < size ==> #[trigger] m.dom().contains((addr + i) as u64),
    ensures
        le_combine(bytes_at(store_le(m, addr, size, val), addr, size)) == low_bytes(val, size),
{
    let bs = bytes_at(store_le(m, addr, size, val), addr, size);
    assert forall|i: int| 0 <= i < size implies #[trigger] bs[i] == (val >> ((8 * i) as u64)) as u8 by {
        assert(m.dom().contains((addr + (i as nat)) as u64));
        assert(le_split(val, size)[i] == (val >> ((8 * i) as u64)) as u8);
    }
    let b0 = (val >> 0u64) as u8;
    let b1 = (val >> 8u64) as u8;
    let b2 = (val >> 16u64) as u8;
    let b3 = (val >> 24u64) as u8;
    let b4 = (val >> 32u64) as u8;
    let b5 = (val >> 40u64) as u8;
    let b6 = (val >> 48u64) as u8;
    let b7 = (val >> 56u64) as u8;
    if size == 1 {
        assert(bs[0] == b0);
        assert(b0 as u64 == val & 0xff) by (bit_vector)
            requires
                b0 == (val >> 0u64) as u8,
        ;
    } else if size == 2 {
        assert(bs[0] == b0 && bs[1] == b1);
        assert((b0 as u64) | ((b1 as u64) << 8u64) == val & 0xffff) by (bit_vector)
            requires
                b0 == (val >> 0u64) as u8,
                b1 == (val >> 8u64) as u8,
        ;
    } else if size == 4 {
        assert(bs[0] == b0 && bs[1] == b1 && bs[2] == b2 && bs[3] == b3);
        assert((b0 as u64) | ((b1 as u64) << 8u64) | ((b2 as u64) << 16u64) | ((b3 as u64)
            << 24u64) == val & 0xffff_ffff) by (bit_vector)
            requires
                b0 == (val >> 0u64) as u8,
                b1 == (val >> 8u64) as u8,
                b2 == (val >> 16u64) as u8,
                b3 == (val >> 24u64) as u8,
        ;
    } else {
        assert(bs[0] == b0 && bs[1] == b1 && bs[2] == b2 && bs[3] == b3);
        assert(bs[4] == b4 && bs[5] == b5 && bs[6] == b6 && bs[7] == b7);
        assert((b0 as u64) | ((b1 as u64) << 8u64) | ((b2 as u64) << 16u64) | ((b3 as u64)
            << 24u64) | ((b4 as u64) << 32u64) | ((b5 as u64) << 40u64) | ((b6 as u64) << 48u64)
            | ((b7 as u64) << 56u64) == val) by (bit_vector)
            requires
                b0 == (val >> 0u64) as u8,
                b1 == (val >> 8u64) as u8,
                b2 == (val >> 16u64) as u8,
                b3 == (val >> 24u64) as u8,
                b4 == (val >> 32u64) as u8,
                b5 == (val >> 40u64) as u8,
                b6 == (val >> 48u64) as u8,
                b7 == (val >> 56u64) as u8,
        ;
    }
}

/// A store leaves every byte outside the stored range as it was.
pub proof fn lemma_store_keeps_others(m: Map<u64, u8>, addr: u64, size: nat, val: u64, a: u64)
    requires
        m.dom().contains(a),
        !(addr <= a < addr + size),
    ensures
        store_le(m, addr, size, val).dom().contains(a),
        store_le(m, addr, size, val)[a] == m[a],
{
}

/// The memory an emulated CPU reads and writes. Implementations must be
/// byte-address invariant (RISC-V Volume I, section 2.6), and this one is
/// little-endian, as RISC-V is: a value of several bytes is stored least
/// significant byte first.
pub trait EmulatorMemory: Sized {
    /// The bytes that are mapped, by address.
    spec fn byte_view(&self) -> Map<u64, u8>;

    /// Whether an access of `size` bytes at `addr` is served (it lies in
    /// mapped memory that the implementation can reach in one piece).
    spec fn can_access(&self, addr: u64, size: nat) -> bool;

    /// An access that is served touches mapped bytes only.
    proof fn lemma_access_in_view(&self, addr: u64, size: nat)
        requires
            self.can_access(addr, size),
        ensures
            addr + size <= u64::MAX + 1,
            forall|i: nat| i < size ==> #[trigger] self.byte_view().dom().contains((addr + i) as u64),
    ;

    fn read_u8_ne(&self, addr: u64) -> (r: u8)
        requires
            self.can_access(addr, 1),
        ensures
            r == le_combine(bytes_at(self.byte_view(), addr, 1)),
    ;

    fn write_u8_ne(&mut self, addr: u64, val: u8)
        requires
            old(self).can_access(addr, 1),
        ensures
            final(self).byte_view() == store_le(old(self).byte_view(), addr, 1, val as u64),
            forall|a: u64, s: nat| final(self).can_access(a, s) == old(self).can_access(a, s),
    ;

    fn read_u16_ne(&self, addr: u64) -> (r: u16)
        requires
            self.can_access(addr, 2),
        ensures
            r == le_combine(bytes_at(self.byte_view(), addr, 2)),
    ;

    fn write_u16_ne(&mut self, addr: u64, val: u16)
        requires
            old(self).can_access(addr, 2),
        ensures
            final(self).byte_view() == store_le(old(self).byte_view(), addr, 2, val as u64),
            forall|a: u64, s: nat| final(self).can_access(a, s) == old(self).can_access(a, s),
    ;

    fn read_u32_ne(&self, addr: u64) -> (r: u32)
        requires
            self.can_access(addr, 4),
        ensures
            r == le_combine(bytes_at(self.byte_view(), addr, 4)),
    ;

    fn write_u32_ne(&mut self, addr: u64, val: u32)
        requires
            old(self).can_access(addr, 4),
        ensures
            final(self).byte_view() == store_le(old(self).byte_view(), addr, 4, val as u64),
            forall|a: u64, s: nat| final(self).can_access(a, s) == old(self).can_access(a, s),
    ;

    fn read_u64_ne(&self, addr: u64) -> (r: u64)
        requires
            self.can_access(addr, 8),
        ensures
            r == le_combine(bytes_at(self.byte_view(), addr, 8)),
    ;

    fn write_u64_ne(&mut self, addr: u64, val: u64)
        requires
            old(self).can_access(addr, 8),
        ensures
            final(self).byte_view() == store_le(old(self).byte_view(), addr, 8, val),
            forall|a: u64, s: nat| final(self).can_access(a, s) == old(self).can_access(a, s),
    ;

    /// Reads an instruction: always little-endian (RISC-V Volume I, section 1.5).
    fn read_u32_le(&self, addr: u64) -> (r: u32)
        requires
            self.can_access(addr, 4),
        ensures
            r == le_combine(bytes_at(self.byte_view(), addr, 4)),
    ;
}

/// The byte `imm_top ++ imm_top ++ imm_top ++ imm_low5` that the 6-bit signed
/// immediates of the compressed formats are widened through.
pub open spec fn byte_with_sign(imm_top: u8, imm_low5: u8) -> u8 {
    (((imm_top as u32) * 0xe0) + (imm_low5 as u32)) as u8
}

pub fn sign_extend_byte(imm_top: u8, imm_low5: u8) -> (r: u8)
    requires
        imm_top < 2,
        imm_low5 < 32,
    ensures
        r == byte_with_sign(imm_top, imm_low5),
        sign_extend_from(r as u32, 0x80) == sign_extend_from(((imm_top as u32) << 5u32) | (imm_low5 as u32), 0x20),
{
    let r = (imm_top << 7u8) | (imm_top << 6u8) | (imm_top << 5u8) | imm_low5;
    assert(r == (((imm_top as u32) * 0xe0) + (imm_low5 as u32)) as u8) by (bit_vector)
        requires
            imm_top < 2,
            imm_low5 < 32,
            r == (imm_top << 7u8) | (imm_top << 6u8) | (imm_top << 5u8) | imm_low5,
    ;
    assert(((imm_top as u32) << 5u32) | (imm_low5 as u32) == (imm_top as u32) * 32 + (imm_low5 as u32)) by (bit_vector)
        requires
            imm_top < 2,
            imm_low5 < 32,
    ;
    r
}

/// Sign-extends a byte to 32 bits.
pub fn sign_extend_u8_to_u32(val: u8) -> (r: u32)
    ensures
        r == sign_extend_from(val as u32, 0x80),
{
    let v = val as u32;
    assert(v < 0x100);
    if v & 0x80 != 0 {
        assert(v >= 0x80 && v | !0xffu32 == v + 0xffff_ff00) by (bit_vector)
            requires
                v < 0x100,
                v & 0x80 != 0,
        ;
        let r = v | !0xffu32;
        assert(r == sign_extend_from(v, 0x80));
        r
    } else {
        assert(v < 0x80) by (bit_vector)
            requires
                v < 0x100,
                v & 0x80 == 0,
        ;
        let r = v & 0xffu32;
        assert(r == v) by (bit_vector)
            requires
                v < 0x80,
                r == v & 0xffu32,
        ;
        r
    }
}

} // verus!
