//! Encodings of RISC-V instructions: the fields of each format, how they are
//! read out of (and written into) an instruction word, and the immediates.
use super::{sign_extend_u8_to_u32, sign_extend_byte};
use crate::bytes::{be_bytes_u32, be_u16, be_u32, u16_from_msb_bytes, u32_from_msb_bytes, u32_to_msb_bytes};
use vstd::prelude::*;

verus! {

/// The format of a full-size instruction, which says where its fields lie.
#[derive(PartialEq, Eq, Structural, Clone, Copy)]
pub enum RiscvInstType {
    RType,
    IType,
    SType,
    BType,
    UType,
    JType,
}

/// The format of a compressed (16-bit) instruction.
#[derive(PartialEq, Eq, Structural, Clone, Copy)]
pub enum RiscvCompressedInstType {
    CRType,
    CIType,
    CSSType,
    CIWType,
    CLType,
    CSType,
    CAType,
    CBType,
    CJType,
}

/// The major opcodes of RV64I and the M extension (the low 7 bits of a word).
#[derive(PartialEq, Eq, Structural, Clone, Copy)]
pub enum RiscvOpcode {
    OPIMM,
    OPIMM32,
    LUI,
    AUIPC,
    OP,
    OP32,
    JAL,
    JALR,
    BRANCH,
    LOAD,
    STORE,
    MISCMEM,
    SYSTEM,
}

impl RiscvOpcode {
    /// The 7-bit code of the opcode.
    pub open spec fn code(self) -> u8 {
        match self {
            RiscvOpcode::OPIMM => 0b0010011,
            RiscvOpcode::OPIMM32 => 0b0011011,
            RiscvOpcode::LUI => 0b0110111,
            RiscvOpcode::AUIPC => 0b0010111,
            RiscvOpcode::OP => 0b0110011,
            RiscvOpcode::OP32 => 0b0111011,
            RiscvOpcode::JAL => 0b1101111,
            RiscvOpcode::JALR => 0b1100111,
            RiscvOpcode::BRANCH => 0b1100011,
            RiscvOpcode::LOAD => 0b0000011,
            RiscvOpcode::STORE => 0b0100011,
            RiscvOpcode::MISCMEM => 0b0001111,
            RiscvOpcode::SYSTEM => 0b1110011,
        }
    }

    /// The opcode whose code is `v`, if there is one.
    pub open spec fn decode(v: u8) -> Option<RiscvOpcode> {
        if v == 0b0010011 {
            Some(RiscvOpcode::OPIMM)
        } else if v == 0b0011011 {
            Some(RiscvOpcode::OPIMM32)
        } else if v == 0b0110111 {
            Some(RiscvOpcode::LUI)
        } else if v == 0b0010111 {
            Some(RiscvOpcode::AUIPC)
        } else if v == 0b0110011 {
            Some(RiscvOpcode::OP)
        } else if v == 0b0111011 {
            Some(RiscvOpcode::OP32)
        } else if v == 0b1101111 {
            Some(RiscvOpcode::JAL)
        } else if v == 0b1100111 {
            Some(RiscvOpcode::JALR)
        } else if v == 0b1100011 {
            Some(RiscvOpcode::BRANCH)
        } else if v == 0b0000011 {
            Some(RiscvOpcode::LOAD)
        } else if v == 0b0100011 {
            Some(RiscvOpcode::STORE)
        } else if v == 0b0001111 {
            Some(RiscvOpcode::MISCMEM)
        } else if v == 0b1110011 {
            Some(RiscvOpcode::SYSTEM)
        } else {
            None
        }
    }

    /// The format that instructions with this opcode use.
    pub open spec fn format(self) -> RiscvInstType {
        match self {
            RiscvOpcode::OPIMM => RiscvInstType::IType,
            RiscvOpcode::OPIMM32 => RiscvInstType::IType,
            RiscvOpcode::LUI => RiscvInstType::UType,
            RiscvOpcode::AUIPC => RiscvInstType::UType,
            RiscvOpcode::OP => RiscvInstType::RType,
            RiscvOpcode::OP32 => RiscvInstType::RType,
            RiscvOpcode::JAL => RiscvInstType::JType,
            RiscvOpcode::JALR => RiscvInstType::IType,
            RiscvOpcode::BRANCH => RiscvInstType::BType,
            RiscvOpcode::LOAD => RiscvInstType::IType,
            RiscvOpcode::STORE => RiscvInstType::SType,
            RiscvOpcode::MISCMEM => RiscvInstType::IType,
            RiscvOpcode::SYSTEM => RiscvInstType::IType,
        }
    }

    pub fn from_primitive(v: u8) -> (r: Option<RiscvOpcode>)
        ensures
            r == Self::decode(v),
    {
        if v == 0b0010011 {
            Some(RiscvOpcode::OPIMM)
        } else if v == 0b0011011 {
            Some(RiscvOpcode::OPIMM32)
        } else if v == 0b0110111 {
            Some(RiscvOpcode::LUI)
        } else if v == 0b0010111 {
            Some(RiscvOpcode::AUIPC)
        } else if v == 0b0110011 {
            Some(RiscvOpcode::OP)
        } else if v == 0b0111011 {
            Some(RiscvOpcode::OP32)
        } else if v == 0b1101111 {
            Some(RiscvOpcode::JAL)
        } else if v == 0b1100111 {
            Some(RiscvOpcode::JALR)
        } else if v == 0b1100011 {
            Some(RiscvOpcode::BRANCH)
        } else if v == 0b0000011 {
            Some(RiscvOpcode::LOAD)
        } else if v == 0b0100011 {
            Some(RiscvOpcode::STORE)
        } else if v == 0b0001111 {
            Some(RiscvOpcode::MISCMEM)
        } else if v == 0b1110011 {
            Some(RiscvOpcode::SYSTEM)
        } else {
            None
        }
    }

    pub fn to_primitive(&self) -> (r: u8)
        ensures
            r == self.code(),
    {
        match self {
            RiscvOpcode::OPIMM => 0b0010011,
            RiscvOpcode::OPIMM32 => 0b0011011,
            RiscvOpcode::LUI => 0b0110111,
            RiscvOpcode::AUIPC => 0b0010111,
            RiscvOpcode::OP => 0b0110011,
            RiscvOpcode::OP32 => 0b0111011,
            RiscvOpcode::JAL => 0b1101111,
            RiscvOpcode::JALR => 0b1100111,
            RiscvOpcode::BRANCH => 0b1100011,
            RiscvOpcode::LOAD => 0b0000011,
            RiscvOpcode::STORE => 0b0100011,
            RiscvOpcode::MISCMEM => 0b0001111,
            RiscvOpcode::SYSTEM => 0b1110011,
        }
    }

    pub fn get_type(&self) -> (r: RiscvInstType)
        ensures
            r == self.format(),
    {
        match self {
            RiscvOpcode::OPIMM => RiscvInstType::IType,
            RiscvOpcode::OPIMM32 => RiscvInstType::IType,
            RiscvOpcode::LUI => RiscvInstType::UType,
            RiscvOpcode::AUIPC => RiscvInstType::UType,
            RiscvOpcode::OP => RiscvInstType::RType,
            RiscvOpcode::OP32 => RiscvInstType::RType,
            RiscvOpcode::JAL => RiscvInstType::JType,
            RiscvOpcode::JALR => RiscvInstType::IType,
            RiscvOpcode::BRANCH => RiscvInstType::BType,
            RiscvOpcode::LOAD => RiscvInstType::IType,
            RiscvOpcode::STORE => RiscvInstType::SType,
            RiscvOpcode::MISCMEM => RiscvInstType::IType,
            RiscvOpcode::SYSTEM => RiscvInstType::IType,
        }
    }
}

/// A code that `decode` accepts is the code of the opcode it gives, and codes
/// fit in the low 7 bits of a word.
pub proof fn lemma_opcode_code_roundtrip(op: RiscvOpcode)
    ensures
        RiscvOpcode::decode(op.code()) == Some(op),
        op.code() < 128,
        op.code() & 0b11 == 0b11,
{
    let c = op.code();
    assert(c == 19 || c == 27 || c == 55 || c == 23 || c == 51 || c == 59 || c == 111 || c == 103
        || c == 99 || c == 3 || c == 35 || c == 15 || c == 115);
    assert(c & 0b11 == 0b11) by (bit_vector)
        requires
            c == 19 || c == 27 || c == 55 || c == 23 || c == 51 || c == 59 || c == 111 || c == 103
                || c == 99 || c == 3 || c == 35 || c == 15 || c == 115,
    ;
}

/// The quadrant of a compressed instruction (its low two bits).
#[derive(PartialEq, Eq, Structural, Clone, Copy)]
pub enum RiscvCompressedOpcode {
    C0,
    C1,
    C2,
}

impl RiscvCompressedOpcode {
    pub open spec fn code(self) -> u8 {
        match self {
            RiscvCompressedOpcode::C0 => 0,
            RiscvCompressedOpcode::C1 => 1,
            RiscvCompressedOpcode::C2 => 2,
        }
    }

    pub open spec fn decode(v: u8) -> Option<RiscvCompressedOpcode> {
        if v == 0 {
            Some(RiscvCompressedOpcode::C0)
        } else if v == 1 {
            Some(RiscvCompressedOpcode::C1)
        } else if v == 2 {
            Some(RiscvCompressedOpcode::C2)
        } else {
            None
        }
    }

    pub fn from_primitive(v: u8) -> (r: Option<RiscvCompressedOpcode>)
        ensures
            r == Self::decode(v),
    {
        if v == 0 {
            Some(RiscvCompressedOpcode::C0)
        } else if v == 1 {
            Some(RiscvCompressedOpcode::C1)
        } else if v == 2 {
            Some(RiscvCompressedOpcode::C2)
        } else {
            None
        }
    }
}

/// The format of the compressed instruction `inst`, as its quadrant, its
/// `funct3` (bits 13..=15) and bits 10..=11 say; `None` for the reserved
/// encodings and for words that are not compressed (quadrant 0b11).
pub open spec fn compressed_format(inst: u16) -> Option<RiscvCompressedInstType> {
    let q = inst & 0b11;
    let f3 = (inst >> 13u16) & 0b111;
    let f2 = (inst >> 10u16) & 0b11;
    if q == 0 {
        if f3 == 0 {
            Some(RiscvCompressedInstType::CIWType)
        } else if f3 <= 3 {
            Some(RiscvCompressedInstType::CLType)
        } else if f3 == 4 {
            None
        } else {
            Some(RiscvCompressedInstType::CSType)
        }
    } else if q == 1 {
        if f3 <= 3 {
            Some(RiscvCompressedInstType::CIType)
        } else if f3 == 4 {
            if f2 == 3 {
                Some(RiscvCompressedInstType::CAType)
            } else {
                Some(RiscvCompressedInstType::CBType)
            }
        } else if f3 == 5 {
            Some(RiscvCompressedInstType::CJType)
        } else {
            Some(RiscvCompressedInstType::CBType)
        }
    } else if q == 2 {
        if f3 <= 3 {
            Some(RiscvCompressedInstType::CIType)
        } else if f3 == 4 {
            Some(RiscvCompressedInstType::CRType)
        } else {
            Some(RiscvCompressedInstType::CSSType)
        }
    } else {
        None
    }
}

pub fn get_compressed_instruction_type(inst: u16) -> (r: Option<RiscvCompressedInstType>)
    ensures
        r == compressed_format(inst),
{
    let op = RiscvCompressedOpcode::from_primitive((inst & 0b11) as u8)?;
    let f3 = (inst >> 13u16) & 0b111;
    let f2 = (inst >> 10u16) & 0b11;
    assert(f3 < 8) by (bit_vector)
        requires
            f3 == (inst >> 13u16) & 0b111,
    ;
    assert(((inst & 0b11) as u8) == (inst & 0b11)) by (bit_vector);
    match op {
        RiscvCompressedOpcode::C0 => {
            if f3 == 0b000 {
                Some(RiscvCompressedInstType::CIWType)
            } else if f3 == 0b001 || f3 == 0b010 || f3 == 0b011 {
                Some(RiscvCompressedInstType::CLType)
            } else if f3 == 0b100 {
                None
            } else {
                Some(RiscvCompressedInstType::CSType)
            }
        },
        RiscvCompressedOpcode::C1 => {
            if f3 == 0b000 || f3 == 0b001 || f3 == 0b010 || f3 == 0b011 {
                Some(RiscvCompressedInstType::CIType)
            } else if f3 == 0b100 {
                if f2 == 0b11 {
                    Some(RiscvCompressedInstType::CAType)
                } else {
                    Some(RiscvCompressedInstType::CBType)
                }
            } else if f3 == 0b101 {
                Some(RiscvCompressedInstType::CJType)
            } else {
                Some(RiscvCompressedInstType::CBType)
            }
        },
        RiscvCompressedOpcode::C2 => {
            if f3 == 0b000 || f3 == 0b001 || f3 == 0b010 || f3 == 0b011 {
                Some(RiscvCompressedInstType::CIType)
            } else if f3 == 0b100 {
                Some(RiscvCompressedInstType::CRType)
            } else {
                Some(RiscvCompressedInstType::CSSType)
            }
        },
    }
}

/// Shifting by nothing leaves a word as it is.
pub proof fn lemma_shr_zero(x: u32)
    by (bit_vector)
    ensures
        x >> 0u32 == x,
{
}

/// A value of one bit more than `top` marks: its sign bit is `top`; with the
/// bits above the sign set, it is `v + 2^32 - 2 * top`.
pub proof fn lemma_sign_ext(v: u32, top: u32)
    by (bit_vector)
    requires
        top == 0x100 || top == 0x200 || top == 0x800 || top == 0x1000 || top == 0x10_0000,
        v < top * 2,
    ensures
        v & ((top * 2 - 1) as u32) == v,
        (v & top != 0) == (v >= top),
        v >= top ==> (v | !((top * 2 - 1) as u32)) == v + (0x1_0000_0000 - top * 2),
{
}

/// A field of a word, shifted down and masked, fits in the mask, and in a
/// byte or half-word where the mask does.
pub proof fn lemma_field_u16(v: u16, s: u16, m: u16)
    by (bit_vector)
    ensures
        ((v >> s) & m) <= m,
        m < 0x100 ==> (((v >> s) & m) as u8) as u16 == (v >> s) & m,
{
}

/// As [`lemma_field_u16`], for words.
pub proof fn lemma_field_u32(v: u32, s: u32, m: u32)
    by (bit_vector)
    ensures
        ((v >> s) & m) <= m,
        m < 0x100 ==> (((v >> s) & m) as u8) as u32 == (v >> s) & m,
        m < 0x1_0000 ==> (((v >> s) & m) as u16) as u32 == (v >> s) & m,
{
}

/// `raw`, a two's-complement number whose sign bit is `sign_bit`, sign-extended
/// to 32 bits.
pub open spec fn sign_extend_from(raw: u32, sign_bit: u32) -> u32 {
    if raw >= sign_bit {
        (raw as int - 2 * sign_bit as int + 0x1_0000_0000) as u32
    } else {
        raw
    }
}

// ---------------------------------------------------------------------------
// Full-size formats
// ---------------------------------------------------------------------------

pub struct RiscvRTypeInstruction {
    pub opcode: RiscvOpcode,
    pub rd: u8,
    pub funct3: u8,
    pub rs1: u8,
    pub rs2: u8,
    pub funct7: u8,
}

impl RiscvRTypeInstruction {
    /// The fields of an R-type word: opcode 0..=6, rd 7..=11, funct3 12..=14,
    /// rs1 15..=19, rs2 20..=24, funct7 25..=31.
    pub open spec fn from_word(v: u32) -> Option<Self> {
        match RiscvOpcode::decode((v & 0x7f) as u8) {
            Some(op) => Some(
                RiscvRTypeInstruction {
                    opcode: op,
                    rd: ((v >> 7u32) & 0x1f) as u8,
                    funct3: ((v >> 12u32) & 0x7) as u8,
                    rs1: ((v >> 15u32) & 0x1f) as u8,
                    rs2: ((v >> 20u32) & 0x1f) as u8,
                    funct7: ((v >> 25u32) & 0x7f) as u8,
                },
            ),
            None => None,
        }
    }

    /// The word with these fields, each cut to its width.
    pub open spec fn to_word(self) -> u32 {
        (self.opcode.code() as u32) | (((self.rd as u32) & 0x1f) << 7u32) | (((self.funct3 as u32)
            & 0x7) << 12u32) | (((self.rs1 as u32) & 0x1f) << 15u32) | (((self.rs2 as u32) & 0x1f)
            << 20u32) | (((self.funct7 as u32) & 0x7f) << 25u32)
    }

    pub fn unpack(bytes: &[u8; 4]) -> (r: Option<Self>)
        ensures
            r == Self::from_word(be_u32(bytes@)),
    {
        let v = u32_from_msb_bytes(bytes);
        let opcode = RiscvOpcode::from_primitive((v & 0x7f) as u8)?;
        Some(
            RiscvRTypeInstruction {
                opcode,
                rd: ((v >> 7u32) & 0x1f) as u8,
                funct3: ((v >> 12u32) & 0x7) as u8,
                rs1: ((v >> 15u32) & 0x1f) as u8,
                rs2: ((v >> 20u32) & 0x1f) as u8,
                funct7: ((v >> 25u32) & 0x7f) as u8,
            },
        )
    }

    pub fn pack(&self) -> (r: [u8; 4])
        ensures
            r@ == be_bytes_u32(self.to_word()),
    {
        let w = (self.opcode.to_primitive() as u32) | (((self.rd as u32) & 0x1f) << 7u32) | (((
        self.funct3 as u32) & 0x7) << 12u32) | (((self.rs1 as u32) & 0x1f) << 15u32) | (((
        self.rs2 as u32) & 0x1f) << 20u32) | (((self.funct7 as u32) & 0x7f) << 25u32);
        u32_to_msb_bytes(w)
    }
}

pub struct RiscvITypeInstruction {
    pub opcode: RiscvOpcode,
    pub rd: u8,
    pub funct3: u8,
    pub rs1: u8,
    pub imm: u16,
}

impl RiscvITypeInstruction {
    /// opcode 0..=6, rd 7..=11, funct3 12..=14, rs1 15..=19, imm 20..=31.
    pub open spec fn from_word(v: u32) -> Option<Self> {
        match RiscvOpcode::decode((v & 0x7f) as u8) {
            Some(op) => Some(
                RiscvITypeInstruction {
                    opcode: op,
                    rd: ((v >> 7u32) & 0x1f) as u8,
                    funct3: ((v >> 12u32) & 0x7) as u8,
                    rs1: ((v >> 15u32) & 0x1f) as u8,
                    imm: ((v >> 20u32) & 0xfff) as u16,
                },
            ),
            None => None,
        }
    }

    pub open spec fn to_word(self) -> u32 {
        (self.opcode.code() as u32) | (((self.rd as u32) & 0x1f) << 7u32) | (((self.funct3 as u32)
            & 0x7) << 12u32) | (((self.rs1 as u32) & 0x1f) << 15u32) | (((self.imm as u32) & 0xfff)
            << 20u32)
    }

    /// The sign-extended 12-bit immediate.
    pub open spec fn imm_value(self) -> u32 {
        sign_extend_from(((self.imm as u32) & 0xfff), 0x800)
    }

    /// Builds the instruction; the immediate keeps its low 12 bits.
    pub fn from(opcode: RiscvOpcode, rd: u8, funct3: u8, rs1: u8, imm: u32) -> (r: Self)
        ensures
            r == (RiscvITypeInstruction { opcode, rd, funct3, rs1, imm: imm as u16 }),
    {
        RiscvITypeInstruction { opcode, rd, funct3, rs1, imm: imm as u16 }
    }

    pub fn unpack(bytes: &[u8; 4]) -> (r: Option<Self>)
        ensures
            r == Self::from_word(be_u32(bytes@)),
    {
        let v = u32_from_msb_bytes(bytes);
        let opcode = RiscvOpcode::from_primitive((v & 0x7f) as u8)?;
        Some(
            RiscvITypeInstruction {
                opcode,
                rd: ((v >> 7u32) & 0x1f) as u8,
                funct3: ((v >> 12u32) & 0x7) as u8,
                rs1: ((v >> 15u32) & 0x1f) as u8,
                imm: ((v >> 20u32) & 0xfff) as u16,
            },
        )
    }

    pub fn pack(&self) -> (r: [u8; 4])
        ensures
            r@ == be_bytes_u32(self.to_word()),
    {
        let w = (self.opcode.to_primitive() as u32) | (((self.rd as u32) & 0x1f) << 7u32) | (((
        self.funct3 as u32) & 0x7) << 12u32) | (((self.rs1 as u32) & 0x1f) << 15u32) | (((
        self.imm as u32) & 0xfff) << 20u32);
        u32_to_msb_bytes(w)
    }

    pub fn parse_imm(&self) -> (r: u32)
        requires
            self.imm < 0x1000,
        ensures
            r == self.imm_value(),
    {
        // 12 bits in length
        let top_bit: u32 = 0x800;
        let all_ones: u32 = 0xfff;
        let non_sign_extended_imm: u32 = self.imm as u32;
        let sign = (non_sign_extended_imm & top_bit) != 0;
        proof {
                lemma_sign_ext(non_sign_extended_imm, 0x800);
            }
        if sign {
            proof {
                lemma_sign_ext(non_sign_extended_imm, 0x800);
            }
            non_sign_extended_imm | (!all_ones)
        } else {
            proof {
                lemma_sign_ext(non_sign_extended_imm, 0x800);
            }
            non_sign_extended_imm & all_ones
        }
    }
}


pub struct RiscvSTypeInstruction {
    pub opcode: RiscvOpcode,
    pub imm_low5: u8,
    pub funct3: u8,
    pub rs1: u8,
    pub rs2: u8,
    pub imm_hi7: u8,
}

impl RiscvSTypeInstruction {
    /// opcode 0..=6, imm[4:0] 7..=11, funct3 12..=14, rs1 15..=19, rs2 20..=24,
    /// imm[11:5] 25..=31.
    pub open spec fn from_word(v: u32) -> Option<Self> {
        match RiscvOpcode::decode((v & 0x7f) as u8) {
            Some(op) => Some(
                RiscvSTypeInstruction {
                    opcode: op,
                    imm_low5: ((v >> 7u32) & 0x1f) as u8,
                    funct3: ((v >> 12u32) & 0x7) as u8,
                    rs1: ((v >> 15u32) & 0x1f) as u8,
                    rs2: ((v >> 20u32) & 0x1f) as u8,
                    imm_hi7: ((v >> 25u32) & 0x7f) as u8,
                },
            ),
            None => None,
        }
    }

    pub open spec fn to_word(self) -> u32 {
        (self.opcode.code() as u32) | (((self.imm_low5 as u32) & 0x1f) << 7u32) | (((
        self.funct3 as u32) & 0x7) << 12u32) | (((self.rs1 as u32) & 0x1f) << 15u32) | (((
        self.rs2 as u32) & 0x1f) << 20u32) | (((self.imm_hi7 as u32) & 0x7f) << 25u32)
    }

    pub open spec fn wf(self) -> bool {
        self.imm_low5 < 32 && self.imm_hi7 < 128
    }

    /// The sign-extended 12-bit immediate imm[11:5] ++ imm[4:0].
    pub open spec fn imm_value(self) -> u32 {
        sign_extend_from((self.imm_low5 as u32) | ((self.imm_hi7 as u32) << 5u32), 0x800)
    }

    /// Builds the instruction; the immediate keeps its low 12 bits.
    pub fn from(opcode: RiscvOpcode, funct3: u8, rs1: u8, rs2: u8, imm: u32) -> (r: Self)
        ensures
            r == (RiscvSTypeInstruction {
                opcode,
                imm_low5: (imm & 0x1f) as u8,
                funct3,
                rs1,
                rs2,
                imm_hi7: ((imm >> 5u32) & 0x7f) as u8,
            }),
            r.wf(),
    {
        let r = RiscvSTypeInstruction {
            opcode,
            imm_low5: ((imm >> 0u32) & 0b1_1111) as u8,
            funct3,
            rs1,
            rs2,
            imm_hi7: ((imm >> 5u32) & 0b111_1111) as u8,
        };
        assert((imm >> 0u32) & 0x1f == imm & 0x1f && imm & 0x1f < 32 && (imm >> 5u32) & 0x7f < 128) by (bit_vector);
        r
    }

    pub fn unpack(bytes: &[u8; 4]) -> (r: Option<Self>)
        ensures
            r == Self::from_word(be_u32(bytes@)),
    {
        let v = u32_from_msb_bytes(bytes);
        let opcode = RiscvOpcode::from_primitive((v & 0x7f) as u8)?;
        Some(
            RiscvSTypeInstruction {
                opcode,
                imm_low5: ((v >> 7u32) & 0x1f) as u8,
                funct3: ((v >> 12u32) & 0x7) as u8,
                rs1: ((v >> 15u32) & 0x1f) as u8,
                rs2: ((v >> 20u32) & 0x1f) as u8,
                imm_hi7: ((v >> 25u32) & 0x7f) as u8,
            },
        )
    }

    pub fn pack(&self) -> (r: [u8; 4])
        ensures
            r@ == be_bytes_u32(self.to_word()),
    {
        let w = (self.opcode.to_primitive() as u32) | (((self.imm_low5 as u32) & 0x1f) << 7u32) | (((
        self.funct3 as u32) & 0x7) << 12u32) | (((self.rs1 as u32) & 0x1f) << 15u32) | (((
        self.rs2 as u32) & 0x1f) << 20u32) | (((self.imm_hi7 as u32) & 0x7f) << 25u32);
        u32_to_msb_bytes(w)
    }

    pub fn parse_imm(&self) -> (r: u32)
        requires
            self.wf(),
        ensures
            r == self.imm_value(),
    {
        // 12 bits in length
        let top_bit: u32 = 0x800;
        let all_ones: u32 = 0xfff;
        let lo = self.imm_low5 as u32;
        let hi = self.imm_hi7 as u32;
        let non_sign_extended_imm: u32 = lo | hi << 5u32;
        assert(non_sign_extended_imm < 0x1000) by (bit_vector)
            requires
                lo < 32,
                hi < 128,
                non_sign_extended_imm == lo | hi << 5u32,
        ;
        let sign = (non_sign_extended_imm & top_bit) != 0;
        if sign {
            proof {
                lemma_sign_ext(non_sign_extended_imm, 0x800);
            }
            non_sign_extended_imm | (!all_ones)
        } else {
            proof {
                lemma_sign_ext(non_sign_extended_imm, 0x800);
            }
            non_sign_extended_imm & all_ones
        }
    }
}

pub struct RiscvBTypeInstruction {
    pub opcode: RiscvOpcode,
    pub imm_bit11: u8,
    pub imm_bits_4_1: u8,
    pub funct3: u8,
    pub rs1: u8,
    pub rs2: u8,
    pub imm_bits_10_5: u8,
    pub imm_bit12: u8,
}

impl RiscvBTypeInstruction {
    /// opcode 0..=6, imm[11] 7, imm[4:1] 8..=11, funct3 12..=14, rs1 15..=19,
    /// rs2 20..=24, imm[10:5] 25..=30, imm[12] 31.
    pub open spec fn from_word(v: u32) -> Option<Self> {
        match RiscvOpcode::decode((v & 0x7f) as u8) {
            Some(op) => Some(
                RiscvBTypeInstruction {
                    opcode: op,
                    imm_bit11: ((v >> 7u32) & 0x1) as u8,
                    imm_bits_4_1: ((v >> 8u32) & 0xf) as u8,
                    funct3: ((v >> 12u32) & 0x7) as u8,
                    rs1: ((v >> 15u32) & 0x1f) as u8,
                    rs2: ((v >> 20u32) & 0x1f) as u8,
                    imm_bits_10_5: ((v >> 25u32) & 0x3f) as u8,
                    imm_bit12: ((v >> 31u32) & 0x1) as u8,
                },
            ),
            None => None,
        }
    }

    pub open spec fn to_word(self) -> u32 {
        (self.opcode.code() as u32) | (((self.imm_bit11 as u32) & 0x1) << 7u32) | (((
        self.imm_bits_4_1 as u32) & 0xf) << 8u32) | (((self.funct3 as u32) & 0x7) << 12u32) | (((
        self.rs1 as u32) & 0x1f) << 15u32) | (((self.rs2 as u32) & 0x1f) << 20u32) | (((
        self.imm_bits_10_5 as u32) & 0x3f) << 25u32) | (((self.imm_bit12 as u32) & 0x1) << 31u32)
    }

    pub open spec fn wf(self) -> bool {
        self.imm_bit11 < 2 && self.imm_bits_4_1 < 16 && self.imm_bits_10_5 < 64 && self.imm_bit12
            < 2
    }

    /// The sign-extended 13-bit immediate imm[12|10:5|4:1|11] << 1.
    pub open spec fn imm_value(self) -> u32 {
        sign_extend_from(
            ((self.imm_bits_4_1 as u32) << 1u32) | ((self.imm_bits_10_5 as u32) << 5u32) | ((
            self.imm_bit11 as u32) << 11u32) | ((self.imm_bit12 as u32) << 12u32),
            0x1000,
        )
    }

    /// Builds the instruction; the immediate keeps bits 1..=12.
    pub fn from(opcode: RiscvOpcode, funct3: u8, rs1: u8, rs2: u8, imm: u32) -> (r: Self)
        ensures
            r == (RiscvBTypeInstruction {
                opcode,
                imm_bit11: ((imm >> 11u32) & 1) as u8,
                imm_bits_4_1: ((imm >> 1u32) & 0xf) as u8,
                funct3,
                rs1,
                rs2,
                imm_bits_10_5: ((imm >> 5u32) & 0x3f) as u8,
                imm_bit12: ((imm >> 12u32) & 1) as u8,
            }),
            r.wf(),
    {
        assert(((imm >> 11u32) & 1) < 2 && ((imm >> 1u32) & 0xf) < 16 && ((imm >> 5u32) & 0x3f)
            < 64 && ((imm >> 12u32) & 1) < 2) by (bit_vector);
        RiscvBTypeInstruction {
            opcode,
            imm_bit11: ((imm >> 11u32) & 1) as u8,
            imm_bits_4_1: ((imm >> 1u32) & 0b1111) as u8,
            imm_bits_10_5: ((imm >> 5u32) & 0b1111_11) as u8,
            imm_bit12: ((imm >> 12u32) & 1) as u8,
            funct3,
            rs1,
            rs2,
        }
    }

    pub fn unpack(bytes: &[u8; 4]) -> (r: Option<Self>)
        ensures
            r == Self::from_word(be_u32(bytes@)),
    {
        let v = u32_from_msb_bytes(bytes);
        let opcode = RiscvOpcode::from_primitive((v & 0x7f) as u8)?;
        Some(
            RiscvBTypeInstruction {
                opcode,
                imm_bit11: ((v >> 7u32) & 0x1) as u8,
                imm_bits_4_1: ((v >> 8u32) & 0xf) as u8,
                funct3: ((v >> 12u32) & 0x7) as u8,
                rs1: ((v >> 15u32) & 0x1f) as u8,
                rs2: ((v >> 20u32) & 0x1f) as u8,
                imm_bits_10_5: ((v >> 25u32) & 0x3f) as u8,
                imm_bit12: ((v >> 31u32) & 0x1) as u8,
            },
        )
    }

    pub fn pack(&self) -> (r: [u8; 4])
        ensures
            r@ == be_bytes_u32(self.to_word()),
    {
        let w = (self.opcode.to_primitive() as u32) | (((self.imm_bit11 as u32) & 0x1) << 7u32) | (((
        self.imm_bits_4_1 as u32) & 0xf) << 8u32) | (((self.funct3 as u32) & 0x7) << 12u32) | (((
        self.rs1 as u32) & 0x1f) << 15u32) | (((self.rs2 as u32) & 0x1f) << 20u32) | (((
        self.imm_bits_10_5 as u32) & 0x3f) << 25u32) | (((self.imm_bit12 as u32) & 0x1) << 31u32);
        u32_to_msb_bytes(w)
    }

    pub fn parse_imm(&self) -> (r: u32)
        requires
            self.wf(),
        ensures
            r == self.imm_value(),
    {
        // 13 bits in length, as we start at bit 0
        let top_bit: u32 = 0x1000;
        let all_ones: u32 = 0x1fff;
        let b41 = self.imm_bits_4_1 as u32;
        let b105 = self.imm_bits_10_5 as u32;
        let b11 = self.imm_bit11 as u32;
        let b12 = self.imm_bit12 as u32;
        let non_sign_extended_imm: u32 = b41 << 1u32 | b105 << 5u32 | b11 << 11u32 | b12 << 12u32;
        assert(non_sign_extended_imm < 0x2000) by (bit_vector)
            requires
                b41 < 16,
                b105 < 64,
                b11 < 2,
                b12 < 2,
                non_sign_extended_imm == b41 << 1u32 | b105 << 5u32 | b11 << 11u32 | b12 << 12u32,
        ;
        let sign = (non_sign_extended_imm & top_bit) != 0;
        if sign {
            proof {
                lemma_sign_ext(non_sign_extended_imm, 0x1000);
            }
            non_sign_extended_imm | (!all_ones)
        } else {
            proof {
                lemma_sign_ext(non_sign_extended_imm, 0x1000);
            }
            non_sign_extended_imm & all_ones
        }
    }
}

pub struct RiscvUTypeInstruction {
    pub opcode: RiscvOpcode,
    pub rd: u8,
    pub imm: u32,
}

impl RiscvUTypeInstruction {
    /// opcode 0..=6, rd 7..=11, imm[31:12] 12..=31.
    pub open spec fn from_word(v: u32) -> Option<Self> {
        match RiscvOpcode::decode((v & 0x7f) as u8) {
            Some(op) => Some(
                RiscvUTypeInstruction {
                    opcode: op,
                    rd: ((v >> 7u32) & 0x1f) as u8,
                    imm: (v >> 12u32) & 0xfffff,
                },
            ),
            None => None,
        }
    }

    pub open spec fn to_word(self) -> u32 {
        (self.opcode.code() as u32) | (((self.rd as u32) & 0x1f) << 7u32) | ((self.imm & 0xfffff)
            << 12u32)
    }

    /// The immediate placed in the upper 20 bits.
    pub open spec fn imm_value(self) -> u32 {
        self.imm << 12u32
    }

    /// Builds the instruction from the upper 20 bits of `imm`.
    pub fn from(opcode: RiscvOpcode, rd: u8, imm: u32) -> (r: Self)
        ensures
            r == (RiscvUTypeInstruction { opcode, rd, imm: imm >> 12u32 }),
    {
        RiscvUTypeInstruction { opcode, rd, imm: imm >> 12u32 }
    }

    pub fn unpack(bytes: &[u8; 4]) -> (r: Option<Self>)
        ensures
            r == Self::from_word(be_u32(bytes@)),
    {
        let v = u32_from_msb_bytes(bytes);
        let opcode = RiscvOpcode::from_primitive((v & 0x7f) as u8)?;
        Some(RiscvUTypeInstruction { opcode, rd: ((v >> 7u32) & 0x1f) as u8, imm: (v >> 12u32) & 0xfffff })
    }

    pub fn pack(&self) -> (r: [u8; 4])
        ensures
            r@ == be_bytes_u32(self.to_word()),
    {
        let w = (self.opcode.to_primitive() as u32) | (((self.rd as u32) & 0x1f) << 7u32) | ((
        self.imm & 0xfffff) << 12u32);
        u32_to_msb_bytes(w)
    }

    pub fn parse_imm(&self) -> (r: u32)
        ensures
            r == self.imm_value(),
    {
        self.imm << 12u32
    }
}

pub struct RiscvJTypeInstruction {
    pub opcode: RiscvOpcode,
    pub rd: u8,
    pub imm_bits_19_12: u8,
    pub imm_bit11: u8,
    pub imm_bits_10_1: u16,
    pub imm_bit20: u8,
}

impl RiscvJTypeInstruction {
    /// opcode 0..=6, rd 7..=11, imm[19:12] 12..=19, imm[11] 20,
    /// imm[10:1] 21..=30, imm[20] 31.
    pub open spec fn from_word(v: u32) -> Option<Self> {
        match RiscvOpcode::decode((v & 0x7f) as u8) {
            Some(op) => Some(
                RiscvJTypeInstruction {
                    opcode: op,
                    rd: ((v >> 7u32) & 0x1f) as u8,
                    imm_bits_19_12: ((v >> 12u32) & 0xff) as u8,
                    imm_bit11: ((v >> 20u32) & 0x1) as u8,
                    imm_bits_10_1: ((v >> 21u32) & 0x3ff) as u16,
                    imm_bit20: ((v >> 31u32) & 0x1) as u8,
                },
            ),
            None => None,
        }
    }

    pub open spec fn to_word(self) -> u32 {
        (self.opcode.code() as u32) | (((self.rd as u32) & 0x1f) << 7u32) | (((
        self.imm_bits_19_12 as u32) & 0xff) << 12u32) | (((self.imm_bit11 as u32) & 0x1) << 20u32)
            | (((self.imm_bits_10_1 as u32) & 0x3ff) << 21u32) | (((self.imm_bit20 as u32) & 0x1)
            << 31u32)
    }

    pub open spec fn wf(self) -> bool {
        self.imm_bits_19_12 < 256 && self.imm_bit11 < 2 && self.imm_bits_10_1 < 1024
            && self.imm_bit20 < 2
    }

    /// The sign-extended 21-bit immediate imm[20|10:1|11|19:12] << 1.
    pub open spec fn imm_value(self) -> u32 {
        sign_extend_from(
            ((self.imm_bits_10_1 as u32) << 1u32) | ((self.imm_bit11 as u32) << 11u32) | ((
            self.imm_bits_19_12 as u32) << 12u32) | ((self.imm_bit20 as u32) << 20u32),
            0x10_0000,
        )
    }

    /// Builds the instruction; the immediate keeps bits 1..=20.
    pub fn from(opcode: RiscvOpcode, rd: u8, imm: u32) -> (r: Self)
        ensures
            r == (RiscvJTypeInstruction {
                opcode,
                rd,
                imm_bits_19_12: ((imm >> 12u32) & 0xff) as u8,
                imm_bit11: ((imm >> 11u32) & 1) as u8,
                imm_bits_10_1: ((imm >> 1u32) & 0x3ff) as u16,
                imm_bit20: ((imm >> 20u32) & 1) as u8,
            }),
            r.wf(),
    {
        assert(((imm >> 12u32) & 0xff) < 256 && ((imm >> 11u32) & 1) < 2 && ((imm >> 1u32) & 0x3ff)
            < 1024 && ((imm >> 20u32) & 1) < 2) by (bit_vector);
        RiscvJTypeInstruction {
            opcode,
            rd,
            imm_bits_19_12: ((imm >> 12u32) & 0b1111_1111) as u8,
            imm_bit11: ((imm >> 11u32) & 0b1) as u8,
            imm_bits_10_1: ((imm >> 1u32) & 0b1111_1111_11) as u16,
            imm_bit20: ((imm >> 20u32) & 0b1) as u8,
        }
    }

    pub fn unpack(bytes: &[u8; 4]) -> (r: Option<Self>)
        ensures
            r == Self::from_word(be_u32(bytes@)),
    {
        let v = u32_from_msb_bytes(bytes);
        let opcode = RiscvOpcode::from_primitive((v & 0x7f) as u8)?;
        Some(
            RiscvJTypeInstruction {
                opcode,
                rd: ((v >> 7u32) & 0x1f) as u8,
                imm_bits_19_12: ((v >> 12u32) & 0xff) as u8,
                imm_bit11: ((v >> 20u32) & 0x1) as u8,
                imm_bits_10_1: ((v >> 21u32) & 0x3ff) as u16,
                imm_bit20: ((v >> 31u32) & 0x1) as u8,
            },
        )
    }

    pub fn pack(&self) -> (r: [u8; 4])
        ensures
            r@ == be_bytes_u32(self.to_word()),
    {
        let w = (self.opcode.to_primitive() as u32) | (((self.rd as u32) & 0x1f) << 7u32) | (((
        self.imm_bits_19_12 as u32) & 0xff) << 12u32) | (((self.imm_bit11 as u32) & 0x1) << 20u32)
            | (((self.imm_bits_10_1 as u32) & 0x3ff) << 21u32) | (((self.imm_bit20 as u32) & 0x1)
            << 31u32);
        u32_to_msb_bytes(w)
    }

    pub fn parse_imm(&self) -> (r: u32)
        requires
            self.wf(),
        ensures
            r == self.imm_value(),
    {
        // 21 bits in length, as we start at bit 0
        let top_bit: u32 = 0x10_0000;
        let all_ones: u32 = 0x1f_ffff;
        let b101 = self.imm_bits_10_1 as u32;
        let b11 = self.imm_bit11 as u32;
        let b1912 = self.imm_bits_19_12 as u32;
        let b20 = self.imm_bit20 as u32;
        let non_sign_extended_imm: u32 = b101 << 1u32 | b11 << 11u32 | b1912 << 12u32 | b20 << 20u32;
        assert(non_sign_extended_imm < 0x20_0000) by (bit_vector)
            requires
                b101 < 1024,
                b11 < 2,
                b1912 < 256,
                b20 < 2,
                non_sign_extended_imm == b101 << 1u32 | b11 << 11u32 | b1912 << 12u32 | b20 << 20u32,
        ;
        let sign = (non_sign_extended_imm & top_bit) != 0;
        if sign {
            proof {
                lemma_sign_ext(non_sign_extended_imm, 0x10_0000);
            }
            non_sign_extended_imm | (!all_ones)
        } else {
            proof {
                lemma_sign_ext(non_sign_extended_imm, 0x10_0000);
            }
            non_sign_extended_imm & all_ones
        }
    }
}

// ---------------------------------------------------------------------------
// Compressed formats
// ---------------------------------------------------------------------------

/// CR: opcode 0..=1, rs2 2..=6, rd/rs1 7..=11, funct4 12..=15.
pub struct RiscvCRTypeInstruction {
    pub opcode: RiscvCompressedOpcode,
    pub rs2: u8,
    pub rd_rs1: u8,
    pub funct4: u8,
}

impl RiscvCRTypeInstruction {
    pub open spec fn from_half(v: u16) -> Option<Self> {
        match RiscvCompressedOpcode::decode((v & 0b11) as u8) {
            Some(op) => Some(
                RiscvCRTypeInstruction {
                    opcode: op,
                    rs2: ((v >> 2u16) & 0x1f) as u8,
                    rd_rs1: ((v >> 7u16) & 0x1f) as u8,
                    funct4: ((v >> 12u16) & 0xf) as u8,
                },
            ),
            None => None,
        }
    }

    pub open spec fn wf(self) -> bool {
        self.rs2 <= 0x1f && self.rd_rs1 <= 0x1f && self.funct4 <= 0xf
    }

    pub fn unpack(bytes: &[u8; 2]) -> (r: Option<Self>)
        ensures
            r == Self::from_half(be_u16(bytes@)),
            r matches Some(i) ==> i.wf(),
    {
        let v = u16_from_msb_bytes(bytes);
        let opcode = RiscvCompressedOpcode::from_primitive((v & 0b11) as u8)?;
        let rs2 = ((v >> 2u16) & 0x1f) as u8;
        proof {
            lemma_field_u16(v, 2u16, 0x1f);
        }
        let rd_rs1 = ((v >> 7u16) & 0x1f) as u8;
        proof {
            lemma_field_u16(v, 7u16, 0x1f);
        }
        let funct4 = ((v >> 12u16) & 0xf) as u8;
        proof {
            lemma_field_u16(v, 12u16, 0xf);
        }
        Some(RiscvCRTypeInstruction { opcode, rs2, rd_rs1, funct4 })
    }
}

/// CI: opcode 0..=1, imm 2..=6, rd/rs1 7..=11, imm 12, funct3 13..=15.
pub struct RiscvCITypeInstruction {
    pub opcode: RiscvCompressedOpcode,
    pub imm_part1: u8,
    pub rd_rs1: u8,
    pub imm_part2: u8,
    pub funct3: u8,
}

impl RiscvCITypeInstruction {
    pub open spec fn from_half(v: u16) -> Option<Self> {
        match RiscvCompressedOpcode::decode((v & 0b11) as u8) {
            Some(op) => Some(
                RiscvCITypeInstruction {
                    opcode: op,
                    imm_part1: ((v >> 2u16) & 0x1f) as u8,
                    rd_rs1: ((v >> 7u16) & 0x1f) as u8,
                    imm_part2: ((v >> 12u16) & 0x1) as u8,
                    funct3: ((v >> 13u16) & 0x7) as u8,
                },
            ),
            None => None,
        }
    }

    pub open spec fn wf(self) -> bool {
        self.imm_part1 <= 0x1f && self.rd_rs1 <= 0x1f && self.imm_part2 <= 0x1 && self.funct3 <= 0x7
    }

    /// The immediate of C.SLLI, C.LWSP, C.LDSP, C.LI, C.LUI, C.ADDI16SP, C.ADDI and
    /// C.ADDIW, as the expansion to a full-size instruction takes it; `None` for
    /// the other CI encodings.
    pub open spec fn imm_value(self) -> Option<u32> {
        let p1 = self.imm_part1 as u32;
        let p2 = self.imm_part2 as u32;
        if self.opcode == RiscvCompressedOpcode::C2 && self.funct3 == 0 {
            // shamt[5] ++ shamt[4:0]
            Some(((p2 & 1) << 5u32) | p1)
        } else if self.opcode == RiscvCompressedOpcode::C2 && self.funct3 == 2 {
            // offset[5] ++ offset[4:2|7:6], scaled by 4
            Some(((p1 & 0b11) << 6u32) | (p2 << 5u32) | (p1 & 0b11100))
        } else if self.opcode == RiscvCompressedOpcode::C2 && self.funct3 == 3 {
            // offset[5] ++ offset[4:3|8:6], scaled by 8
            Some(((p1 & 0b111) << 6u32) | (p2 << 5u32) | (p1 & 0b11000))
        } else if self.opcode == RiscvCompressedOpcode::C1 && (self.funct3 == 0 || self.funct3 == 1
            || self.funct3 == 2) {
            // the sign-extended 6-bit immediate imm[5] ++ imm[4:0]
            Some(sign_extend_from((p2 << 5u32) | p1, 0x20))
        } else if self.opcode == RiscvCompressedOpcode::C1 && self.funct3 == 3 {
            if self.rd_rs1 != 2 {
                // C.LUI: nzimm[17] ++ nzimm[16:12]
                Some(sign_extend_from((p2 << 5u32) | p1, 0x20) << 12u32)
            } else {
                // C.ADDI16SP: nzimm[9] ++ nzimm[4|6|8:7|5], scaled by 16
                Some(
                    sign_extend_from(
                        ((p2 & 1) << 9u32) | (((p1 >> 1u32) & 0b11) << 7u32) | (((p1 >> 3u32) & 1)
                            << 6u32) | ((p1 & 1) << 5u32) | (p1 & 0b10000),
                        0x200,
                    ),
                )
            }
        } else {
            None
        }
    }

    pub fn unpack(bytes: &[u8; 2]) -> (r: Option<Self>)
        ensures
            r == Self::from_half(be_u16(bytes@)),
            r matches Some(i) ==> i.wf(),
    {
        let v = u16_from_msb_bytes(bytes);
        let opcode = RiscvCompressedOpcode::from_primitive((v & 0b11) as u8)?;
        let imm_part1 = ((v >> 2u16) & 0x1f) as u8;
        proof {
            lemma_field_u16(v, 2u16, 0x1f);
        }
        let rd_rs1 = ((v >> 7u16) & 0x1f) as u8;
        proof {
            lemma_field_u16(v, 7u16, 0x1f);
        }
        let imm_part2 = ((v >> 12u16) & 0x1) as u8;
        proof {
            lemma_field_u16(v, 12u16, 0x1);
        }
        let funct3 = ((v >> 13u16) & 0x7) as u8;
        proof {
            lemma_field_u16(v, 13u16, 0x7);
        }
        Some(RiscvCITypeInstruction { opcode, imm_part1, rd_rs1, imm_part2, funct3 })
    }

    pub fn parse_imm(&self) -> (r: Option<u32>)
        requires
            self.wf(),
        ensures
            r == self.imm_value(),
    {
        let p1 = self.imm_part1 as u32;
        let p2 = self.imm_part2 as u32;
        match (self.funct3, self.opcode) {
            (0b000, RiscvCompressedOpcode::C2) => {
                return Some(((self.imm_part2 as u32) & 1) << 5u32 | (self.imm_part1 as u32));
            },
            (0b010, RiscvCompressedOpcode::C2) => {
                return Some(
                    ((self.imm_part1 as u32) & 0b11) << 6u32 | (self.imm_part2 as u32) << 5u32 | ((
                    self.imm_part1 as u32) & 0b11100),
                );
            },
            (0b011, RiscvCompressedOpcode::C2) => {
                return Some(
                    ((self.imm_part1 as u32) & 0b111) << 6u32 | (self.imm_part2 as u32) << 5u32 | ((
                    self.imm_part1 as u32) & 0b11000),
                );
            },
            (0b010, RiscvCompressedOpcode::C1)
            | (0b000, RiscvCompressedOpcode::C1)
            | (0b001, RiscvCompressedOpcode::C1) => {
                let b = sign_extend_byte(self.imm_part2, self.imm_part1);
                return Some(sign_extend_u8_to_u32(b));
            },
            (0b011, RiscvCompressedOpcode::C1) => {
                if self.rd_rs1 != 2 {
                    let b = sign_extend_byte(self.imm_part2, self.imm_part1);
                    return Some(sign_extend_u8_to_u32(b) << 12u32);
                } else {
                    let non_sign_extended_imm: u32 = ((self.imm_part2 as u32) & 1) << 9u32 | (((
                    self.imm_part1 as u32) >> 1u32) & 0b11) << 7u32 | (((self.imm_part1 as u32)
                        >> 3u32) & 1) << 6u32 | ((self.imm_part1 as u32) & 0b1) << 5u32 | ((
                    self.imm_part1 as u32) & 0b10000);
                    let sign_bit = (self.imm_part2 as u32) & 1 != 0;
                    let all_ones: u32 = 0b11_1111_1111;
                    assert(non_sign_extended_imm < 0x400 && ((non_sign_extended_imm >= 0x200)
                        == (p2 & 1 != 0))) by (bit_vector)
                        requires
                            p1 < 32,
                            p2 < 2,
                            non_sign_extended_imm == (p2 & 1) << 9u32 | ((p1 >> 1u32) & 0b11) << 7u32
                                | ((p1 >> 3u32) & 1) << 6u32 | (p1 & 0b1) << 5u32 | (p1 & 0b10000),
                    ;
                    let imm = if sign_bit {
                        proof {
                lemma_sign_ext(non_sign_extended_imm, 0x200);
            }
                        non_sign_extended_imm | (!all_ones)
                    } else {
                        proof {
                lemma_sign_ext(non_sign_extended_imm, 0x200);
            }
                        non_sign_extended_imm & all_ones
                    };
                    return Some(imm);
                }
            },
            _ => {
                return None;
            },
        }
    }
}

/// CSS: opcode 0..=1, rs2 2..=6, imm 7..=12, funct3 13..=15.
pub struct RiscvCSSTypeInstruction {
    pub opcode: RiscvCompressedOpcode,
    pub rs2: u8,
    pub imm: u8,
    pub funct3: u8,
}

impl RiscvCSSTypeInstruction {
    pub open spec fn from_half(v: u16) -> Option<Self> {
        match RiscvCompressedOpcode::decode((v & 0b11) as u8) {
            Some(op) => Some(
                RiscvCSSTypeInstruction {
                    opcode: op,
                    rs2: ((v >> 2u16) & 0x1f) as u8,
                    imm: ((v >> 7u16) & 0x3f) as u8,
                    funct3: ((v >> 13u16) & 0x7) as u8,
                },
            ),
            None => None,
        }
    }

    pub open spec fn wf(self) -> bool {
        self.rs2 <= 0x1f && self.imm <= 0x3f && self.funct3 <= 0x7
    }

    /// The offset of C.SWSP (scaled by 4) and C.SDSP (scaled by 8).
    pub open spec fn imm_value(self) -> Option<u32> {
        let i = self.imm as u32;
        if self.opcode == RiscvCompressedOpcode::C2 && self.funct3 == 6 {
            Some((i & 0b111100) | ((i & 0b11) << 6u32))
        } else if self.opcode == RiscvCompressedOpcode::C2 && self.funct3 == 7 {
            Some((i & 0b111000) | ((i & 0b111) << 6u32))
        } else {
            None
        }
    }

    pub fn unpack(bytes: &[u8; 2]) -> (r: Option<Self>)
        ensures
            r == Self::from_half(be_u16(bytes@)),
            r matches Some(i) ==> i.wf(),
    {
        let v = u16_from_msb_bytes(bytes);
        let opcode = RiscvCompressedOpcode::from_primitive((v & 0b11) as u8)?;
        let rs2 = ((v >> 2u16) & 0x1f) as u8;
        proof {
            lemma_field_u16(v, 2u16, 0x1f);
        }
        let imm = ((v >> 7u16) & 0x3f) as u8;
        proof {
            lemma_field_u16(v, 7u16, 0x3f);
        }
        let funct3 = ((v >> 13u16) & 0x7) as u8;
        proof {
            lemma_field_u16(v, 13u16, 0x7);
        }
        Some(RiscvCSSTypeInstruction { opcode, rs2, imm, funct3 })
    }

    pub fn parse_imm(&self) -> (r: Option<u32>)
        ensures
            r == self.imm_value(),
    {
        match (self.funct3, self.opcode) {
            (0b110, RiscvCompressedOpcode::C2) => {
                return Some((self.imm as u32) & 0b111100 | ((self.imm as u32) & 0b11) << 6u32);
            },
            (0b111, RiscvCompressedOpcode::C2) => {
                return Some((self.imm as u32) & 0b111000 | ((self.imm as u32) & 0b111) << 6u32);
            },
            _ => return None,
        }
    }
}

/// CIW: opcode 0..=1, rd' 2..=4, imm 5..=12, funct3 13..=15.
pub struct RiscvCIWTypeInstruction {
    pub opcode: RiscvCompressedOpcode,
    pub compressed_rd: u8,
    pub imm: u8,
    pub funct3: u8,
}

impl RiscvCIWTypeInstruction {
    pub open spec fn from_half(v: u16) -> Option<Self> {
        match RiscvCompressedOpcode::decode((v & 0b11) as u8) {
            Some(op) => Some(
                RiscvCIWTypeInstruction {
                    opcode: op,
                    compressed_rd: ((v >> 2u16) & 0x7) as u8,
                    imm: ((v >> 5u16) & 0xff) as u8,
                    funct3: ((v >> 13u16) & 0x7) as u8,
                },
            ),
            None => None,
        }
    }

    pub open spec fn wf(self) -> bool {
        self.compressed_rd <= 0x7 && self.imm <= 0xff && self.funct3 <= 0x7
    }

    /// The unsigned offset of C.ADDI4SPN: nzuimm[5:4|9:6|2|3], scaled by 4.
    pub open spec fn imm_value(self) -> Option<u32> {
        let i = self.imm as u32;
        if self.opcode == RiscvCompressedOpcode::C0 && self.funct3 == 0 {
            Some(
                (((i >> 2u32) & 0b1111) << 6u32) | (((i >> 6u32) & 0b11) << 4u32) | ((i & 1) << 3u32)
                    | (((i >> 1u32) & 1) << 2u32),
            )
        } else {
            None
        }
    }

    pub fn unpack(bytes: &[u8; 2]) -> (r: Option<Self>)
        ensures
            r == Self::from_half(be_u16(bytes@)),
            r matches Some(i) ==> i.wf(),
    {
        let v = u16_from_msb_bytes(bytes);
        let opcode = RiscvCompressedOpcode::from_primitive((v & 0b11) as u8)?;
        let compressed_rd = ((v >> 2u16) & 0x7) as u8;
        proof {
            lemma_field_u16(v, 2u16, 0x7);
        }
        let imm = ((v >> 5u16) & 0xff) as u8;
        proof {
            lemma_field_u16(v, 5u16, 0xff);
        }
        let funct3 = ((v >> 13u16) & 0x7) as u8;
        proof {
            lemma_field_u16(v, 13u16, 0x7);
        }
        Some(RiscvCIWTypeInstruction { opcode, compressed_rd, imm, funct3 })
    }

    pub fn parse_imm(&self) -> (r: Option<u32>)
        ensures
            r == self.imm_value(),
    {
        match (self.funct3, self.opcode) {
            (0b000, RiscvCompressedOpcode::C0) => {
                let i = self.imm as u32;
                proof {
            lemma_shr_zero(i);
        }
                return Some(
                    (((self.imm as u32) >> 2u32) & 0b1111) << 6u32 | (((self.imm as u32) >> 6u32)
                        & 0b11) << 4u32 | (((self.imm as u32) >> 0u32) & 1) << 3u32 | (((
                    self.imm as u32) >> 1u32) & 1) << 2u32,
                );
            },
            _ => return None,
        }
    }

    /// The register x8..=x15 that rd' names.
    pub fn parse_rd(&self) -> (r: u8)
        requires
            self.wf(),
        ensures
            r == self.compressed_rd + 8,
    {
        self.compressed_rd + 8
    }
}

/// CL: opcode 0..=1, rd' 2..=4, imm 5..=6, rs1' 7..=9, imm 10..=12, funct3 13..=15.
pub struct RiscvCLTypeInstruction {
    pub opcode: RiscvCompressedOpcode,
    pub compressed_rd: u8,
    pub imm_part1: u8,
    pub compressed_rs1: u8,
    pub imm_part2: u8,
    pub funct3: u8,
}

impl RiscvCLTypeInstruction {
    pub open spec fn from_half(v: u16) -> Option<Self> {
        match RiscvCompressedOpcode::decode((v & 0b11) as u8) {
            Some(op) => Some(
                RiscvCLTypeInstruction {
                    opcode: op,
                    compressed_rd: ((v >> 2u16) & 0x7) as u8,
                    imm_part1: ((v >> 5u16) & 0x3) as u8,
                    compressed_rs1: ((v >> 7u16) & 0x7) as u8,
                    imm_part2: ((v >> 10u16) & 0x7) as u8,
                    funct3: ((v >> 13u16) & 0x7) as u8,
                },
            ),
            None => None,
        }
    }

    pub open spec fn wf(self) -> bool {
        self.compressed_rd <= 0x7 && self.imm_part1 <= 0x3 && self.compressed_rs1 <= 0x7 && self.imm_part2 <= 0x7 && self.funct3 <= 0x7
    }

    /// The offset of the word access (uimm[5:3|2|6], scaled by 4) and of the
    /// doubleword access (uimm[5:3|7:6], scaled by 8).
    pub open spec fn imm_value(self) -> Option<u32> {
        let p1 = self.imm_part1 as u32;
        let p2 = self.imm_part2 as u32;
        if self.opcode == RiscvCompressedOpcode::C0 && self.funct3 == 2 {
            Some(((p1 & 1) << 6u32) | (p2 << 3u32) | (((p1 >> 1u32) & 1) << 2u32))
        } else if self.opcode == RiscvCompressedOpcode::C0 && self.funct3 == 3 {
            Some((((p1 >> 1u32) & 1) << 7u32) | ((p1 & 1) << 6u32) | (p2 << 3u32))
        } else {
            None
        }
    }

    pub fn unpack(bytes: &[u8; 2]) -> (r: Option<Self>)
        ensures
            r == Self::from_half(be_u16(bytes@)),
            r matches Some(i) ==> i.wf(),
    {
        let v = u16_from_msb_bytes(bytes);
        let opcode = RiscvCompressedOpcode::from_primitive((v & 0b11) as u8)?;
        let compressed_rd = ((v >> 2u16) & 0x7) as u8;
        proof {
            lemma_field_u16(v, 2u16, 0x7);
        }
        let imm_part1 = ((v >> 5u16) & 0x3) as u8;
        proof {
            lemma_field_u16(v, 5u16, 0x3);
        }
        let compressed_rs1 = ((v >> 7u16) & 0x7) as u8;
        proof {
            lemma_field_u16(v, 7u16, 0x7);
        }
        let imm_part2 = ((v >> 10u16) & 0x7) as u8;
        proof {
            lemma_field_u16(v, 10u16, 0x7);
        }
        let funct3 = ((v >> 13u16) & 0x7) as u8;
        proof {
            lemma_field_u16(v, 13u16, 0x7);
        }
        Some(RiscvCLTypeInstruction { opcode, compressed_rd, imm_part1, compressed_rs1, imm_part2, funct3 })
    }

    pub fn parse_imm(&self) -> (r: Option<u32>)
        ensures
            r == self.imm_value(),
    {
        match (self.funct3, self.opcode) {
            (0b010, RiscvCompressedOpcode::C0) => {
                let imm_part1 = self.imm_part1 as u32;
                let imm_part2 = self.imm_part2 as u32;
                proof {
            lemma_shr_zero(imm_part1);
        }
                Some(((imm_part1 >> 0u32) & 1) << 6u32 | imm_part2 << 3u32 | ((imm_part1 >> 1u32) & 1) << 2u32)
            },
            (0b011, RiscvCompressedOpcode::C0) => {
                let imm_part1 = self.imm_part1 as u32;
                let imm_part2 = self.imm_part2 as u32;
                proof {
            lemma_shr_zero(imm_part1);
        }
                Some(((imm_part1 >> 1u32) & 1) << 7u32 | ((imm_part1 >> 0u32) & 1) << 6u32 | imm_part2 << 3u32)
            },
            _ => return None,
        }
    }

    pub fn parse_rs1(&self) -> (r: u8)
        requires
            self.wf(),
        ensures
            r == self.compressed_rs1 + 8,
    {
        self.compressed_rs1 + 8
    }

    pub fn parse_rd(&self) -> (r: u8)
        requires
            self.wf(),
        ensures
            r == self.compressed_rd + 8,
    {
        self.compressed_rd + 8
    }
}

/// CS: opcode 0..=1, rs2' 2..=4, imm 5..=6, rs1' 7..=9, imm 10..=12, funct3 13..=15.
pub struct RiscvCSTypeInstruction {
    pub opcode: RiscvCompressedOpcode,
    pub compressed_rs2: u8,
    pub imm_part1: u8,
    pub compressed_rs1: u8,
    pub imm_part2: u8,
    pub funct3: u8,
}

impl RiscvCSTypeInstruction {
    pub open spec fn from_half(v: u16) -> Option<Self> {
        match RiscvCompressedOpcode::decode((v & 0b11) as u8) {
            Some(op) => Some(
                RiscvCSTypeInstruction {
                    opcode: op,
                    compressed_rs2: ((v >> 2u16) & 0x7) as u8,
                    imm_part1: ((v >> 5u16) & 0x3) as u8,
                    compressed_rs1: ((v >> 7u16) & 0x7) as u8,
                    imm_part2: ((v >> 10u16) & 0x7) as u8,
                    funct3: ((v >> 13u16) & 0x7) as u8,
                },
            ),
            None => None,
        }
    }

    pub open spec fn wf(self) -> bool {
        self.compressed_rs2 <= 0x7 && self.imm_part1 <= 0x3 && self.compressed_rs1 <= 0x7 && self.imm_part2 <= 0x7 && self.funct3 <= 0x7
    }

    /// The offset of the word access (uimm[5:3|2|6], scaled by 4) and of the
    /// doubleword access (uimm[5:3|7:6], scaled by 8).
    pub open spec fn imm_value(self) -> Option<u32> {
        let p1 = self.imm_part1 as u32;
        let p2 = self.imm_part2 as u32;
        if self.opcode == RiscvCompressedOpcode::C0 && self.funct3 == 6 {
            Some(((p1 & 1) << 6u32) | (p2 << 3u32) | (((p1 >> 1u32) & 1) << 2u32))
        } else if self.opcode == RiscvCompressedOpcode::C0 && self.funct3 == 7 {
            Some((((p1 >> 1u32) & 1) << 7u32) | ((p1 & 1) << 6u32) | (p2 << 3u32))
        } else {
            None
        }
    }

    pub fn unpack(bytes: &[u8; 2]) -> (r: Option<Self>)
        ensures
            r == Self::from_half(be_u16(bytes@)),
            r matches Some(i) ==> i.wf(),
    {
        let v = u16_from_msb_bytes(bytes);
        let opcode = RiscvCompressedOpcode::from_primitive((v & 0b11) as u8)?;
        let compressed_rs2 = ((v >> 2u16) & 0x7) as u8;
        proof {
            lemma_field_u16(v, 2u16, 0x7);
        }
        let imm_part1 = ((v >> 5u16) & 0x3) as u8;
        proof {
            lemma_field_u16(v, 5u16, 0x3);
        }
        let compressed_rs1 = ((v >> 7u16) & 0x7) as u8;
        proof {
            lemma_field_u16(v, 7u16, 0x7);
        }
        let imm_part2 = ((v >> 10u16) & 0x7) as u8;
        proof {
            lemma_field_u16(v, 10u16, 0x7);
        }
        let funct3 = ((v >> 13u16) & 0x7) as u8;
        proof {
            lemma_field_u16(v, 13u16, 0x7);
        }
        Some(RiscvCSTypeInstruction { opcode, compressed_rs2, imm_part1, compressed_rs1, imm_part2, funct3 })
    }

    pub fn parse_imm(&self) -> (r: Option<u32>)
        ensures
            r == self.imm_value(),
    {
        match (self.funct3, self.opcode) {
            (0b110, RiscvCompressedOpcode::C0) => {
                let imm_part1 = self.imm_part1 as u32;
                let imm_part2 = self.imm_part2 as u32;
                proof {
            lemma_shr_zero(imm_part1);
        }
                Some(((imm_part1 >> 0u32) & 1) << 6u32 | imm_part2 << 3u32 | ((imm_part1 >> 1u32) & 1) << 2u32)
            },
            (0b111, RiscvCompressedOpcode::C0) => {
                let imm_part1 = self.imm_part1 as u32;
                let imm_part2 = self.imm_part2 as u32;
                proof {
            lemma_shr_zero(imm_part1);
        }
                Some(((imm_part1 >> 1u32) & 1) << 7u32 | ((imm_part1 >> 0u32) & 1) << 6u32 | imm_part2 << 3u32)
            },
            _ => return None,
        }
    }

    pub fn parse_rs1(&self) -> (r: u8)
        requires
            self.wf(),
        ensures
            r == self.compressed_rs1 + 8,
    {
        self.compressed_rs1 + 8
    }

    pub fn parse_rs2(&self) -> (r: u8)
        requires
            self.wf(),
        ensures
            r == self.compressed_rs2 + 8,
    {
        self.compressed_rs2 + 8
    }
}

/// CA: opcode 0..=1, rs2' 2..=4, funct2 5..=6, rd'/rs1' 7..=9, funct6 10..=15.
pub struct RiscvCATypeInstruction {
    pub opcode: RiscvCompressedOpcode,
    pub compressed_rs2: u8,
    pub funct2: u8,
    pub compressed_rd_rs1: u8,
    pub funct6: u8,
}

impl RiscvCATypeInstruction {
    pub open spec fn from_half(v: u16) -> Option<Self> {
        match RiscvCompressedOpcode::decode((v & 0b11) as u8) {
            Some(op) => Some(
                RiscvCATypeInstruction {
                    opcode: op,
                    compressed_rs2: ((v >> 2u16) & 0x7) as u8,
                    funct2: ((v >> 5u16) & 0x3) as u8,
                    compressed_rd_rs1: ((v >> 7u16) & 0x7) as u8,
                    funct6: ((v >> 10u16) & 0x3f) as u8,
                },
            ),
            None => None,
        }
    }

    pub open spec fn wf(self) -> bool {
        self.compressed_rs2 <= 0x7 && self.funct2 <= 0x3 && self.compressed_rd_rs1 <= 0x7 && self.funct6 <= 0x3f
    }

    pub fn unpack(bytes: &[u8; 2]) -> (r: Option<Self>)
        ensures
            r == Self::from_half(be_u16(bytes@)),
            r matches Some(i) ==> i.wf(),
    {
        let v = u16_from_msb_bytes(bytes);
        let opcode = RiscvCompressedOpcode::from_primitive((v & 0b11) as u8)?;
        let compressed_rs2 = ((v >> 2u16) & 0x7) as u8;
        proof {
            lemma_field_u16(v, 2u16, 0x7);
        }
        let funct2 = ((v >> 5u16) & 0x3) as u8;
        proof {
            lemma_field_u16(v, 5u16, 0x3);
        }
        let compressed_rd_rs1 = ((v >> 7u16) & 0x7) as u8;
        proof {
            lemma_field_u16(v, 7u16, 0x7);
        }
        let funct6 = ((v >> 10u16) & 0x3f) as u8;
        proof {
            lemma_field_u16(v, 10u16, 0x3f);
        }
        Some(RiscvCATypeInstruction { opcode, compressed_rs2, funct2, compressed_rd_rs1, funct6 })
    }

    pub fn parse_rs2(&self) -> (r: u8)
        requires
            self.wf(),
        ensures
            r == self.compressed_rs2 + 8,
    {
        self.compressed_rs2 + 8
    }

    pub fn parse_rd_rs1(&self) -> (r: u8)
        requires
            self.wf(),
        ensures
            r == self.compressed_rd_rs1 + 8,
    {
        self.compressed_rd_rs1 + 8
    }
}

/// CB: opcode 0..=1, imm 2..=6, rd'/rs1' 7..=9, imm 10..=12, funct3 13..=15.
pub struct RiscvCBTypeInstruction {
    pub opcode: RiscvCompressedOpcode,
    pub imm_part1: u8,
    pub compressed_rd_rs1: u8,
    pub imm_part2: u8,
    pub funct3: u8,
}

impl RiscvCBTypeInstruction {
    pub open spec fn from_half(v: u16) -> Option<Self> {
        match RiscvCompressedOpcode::decode((v & 0b11) as u8) {
            Some(op) => Some(
                RiscvCBTypeInstruction {
                    opcode: op,
                    imm_part1: ((v >> 2u16) & 0x1f) as u8,
                    compressed_rd_rs1: ((v >> 7u16) & 0x7) as u8,
                    imm_part2: ((v >> 10u16) & 0x7) as u8,
                    funct3: ((v >> 13u16) & 0x7) as u8,
                },
            ),
            None => None,
        }
    }

    pub open spec fn wf(self) -> bool {
        self.imm_part1 <= 0x1f && self.compressed_rd_rs1 <= 0x7 && self.imm_part2 <= 0x7 && self.funct3 <= 0x7
    }

    /// The branch offset of C.BEQZ/C.BNEZ (offset[8|4:3] and offset[7:6|2:1|5],
    /// sign-extended), the shift amount of C.SRLI/C.SRAI and the sign-extended
    /// immediate of C.ANDI.
    pub open spec fn imm_value(self) -> Option<u32> {
        let p1 = self.imm_part1 as u32;
        let p2 = self.imm_part2 as u32;
        if self.opcode == RiscvCompressedOpcode::C1 && (self.funct3 == 6 || self.funct3 == 7) {
            Some(
                sign_extend_from(
                    (((p2 >> 2u32) & 1) << 8u32) | (((p1 >> 3u32) & 0b11) << 6u32) | ((p1 & 1)
                        << 5u32) | ((p2 & 0b11) << 3u32) | (p1 & 0b110),
                    0x100,
                ),
            )
        } else if self.opcode == RiscvCompressedOpcode::C1 && self.funct3 == 4 {
            if p2 & 0b11 != 0b10 {
                Some(((p2 >> 2u32) << 5u32) | p1)
            } else {
                Some(sign_extend_from(((p2 >> 2u32) << 5u32) | p1, 0x20))
            }
        } else {
            None
        }
    }

    pub fn unpack(bytes: &[u8; 2]) -> (r: Option<Self>)
        ensures
            r == Self::from_half(be_u16(bytes@)),
            r matches Some(i) ==> i.wf(),
    {
        let v = u16_from_msb_bytes(bytes);
        let opcode = RiscvCompressedOpcode::from_primitive((v & 0b11) as u8)?;
        let imm_part1 = ((v >> 2u16) & 0x1f) as u8;
        proof {
            lemma_field_u16(v, 2u16, 0x1f);
        }
        let compressed_rd_rs1 = ((v >> 7u16) & 0x7) as u8;
        proof {
            lemma_field_u16(v, 7u16, 0x7);
        }
        let imm_part2 = ((v >> 10u16) & 0x7) as u8;
        proof {
            lemma_field_u16(v, 10u16, 0x7);
        }
        let funct3 = ((v >> 13u16) & 0x7) as u8;
        proof {
            lemma_field_u16(v, 13u16, 0x7);
        }
        Some(RiscvCBTypeInstruction { opcode, imm_part1, compressed_rd_rs1, imm_part2, funct3 })
    }

    pub fn parse_imm(&self) -> (r: Option<u32>)
        requires
            self.wf(),
        ensures
            r == self.imm_value(),
    {
        match (self.funct3, self.opcode) {
            (0b110, RiscvCompressedOpcode::C1) | (0b111, RiscvCompressedOpcode::C1) => {
                let imm_part1 = self.imm_part1 as u32;
                let imm_part2 = self.imm_part2 as u32;
                let sign_bit = (imm_part2 >> 2u32) & 1 == 1;
                let non_sign_extended_imm = ((imm_part2 >> 2u32) & 1) << 8u32 | ((imm_part1 >> 3u32)
                    & 0b11) << 6u32 | (imm_part1 & 1) << 5u32 | (imm_part2 & 0b11) << 3u32 | (
                imm_part1 & 0b110);
                let all_ones = 0b1_1111_1111u32;
                assert(non_sign_extended_imm < 0x200 && ((non_sign_extended_imm >= 0x100) == ((
                imm_part2 >> 2u32) & 1 == 1))) by (bit_vector)
                    requires
                        imm_part1 < 32,
                        imm_part2 < 8,
                        non_sign_extended_imm == ((imm_part2 >> 2u32) & 1) << 8u32 | ((imm_part1
                            >> 3u32) & 0b11) << 6u32 | (imm_part1 & 1) << 5u32 | (imm_part2 & 0b11)
                            << 3u32 | (imm_part1 & 0b110),
                ;
                let imm = if sign_bit {
                    proof {
                lemma_sign_ext(non_sign_extended_imm, 0x100);
            }
                    non_sign_extended_imm | (!all_ones)
                } else {
                    proof {
                lemma_sign_ext(non_sign_extended_imm, 0x100);
            }
                    non_sign_extended_imm & all_ones
                };
                return Some(imm);
            },
            (0b100, RiscvCompressedOpcode::C1) => {
                if self.parse_funct2() != 0b10 {
                    return Some(((self.imm_part2 as u32) >> 2u32) << 5u32 | (self.imm_part1 as u32));
                } else {
                    let p2 = self.imm_part2;
                    assert(((p2 as u32) >> 2u32) == ((p2 >> 2u8) as u32) && p2 >> 2u8 < 2) by (bit_vector)
                        requires
                            p2 < 8,
                    ;
                    let b = sign_extend_byte(p2 >> 2u8, self.imm_part1);
                    return Some(sign_extend_u8_to_u32(b));
                }
            },
            _ => return None,
        }
    }

    pub fn parse_funct2(&self) -> (r: u8)
        ensures
            r == self.imm_part2 & 0b11,
    {
        self.imm_part2 & 0b11
    }

    pub fn parse_rd_rs1(&self) -> (r: u8)
        requires
            self.wf(),
        ensures
            r == self.compressed_rd_rs1 + 8,
    {
        self.compressed_rd_rs1 + 8
    }
}

/// CJ: opcode 0..=1, then the jump offset bits 5, 3:1, 7, 6, 10, 9:8, 4, 11 in
/// positions 2..=12, funct3 13..=15.
pub struct RiscvCJTypeInstruction {
    pub opcode: RiscvCompressedOpcode,
    pub imm_bit5: u8,
    pub imm_3_1: u8,
    pub imm_bit7: u8,
    pub imm_bit6: u8,
    pub imm_bit10: u8,
    pub imm_9_8: u8,
    pub imm_bit4: u8,
    pub imm_bit11: u8,
    pub funct3: u8,
}

impl RiscvCJTypeInstruction {
    pub open spec fn from_half(v: u16) -> Option<Self> {
        match RiscvCompressedOpcode::decode((v & 0b11) as u8) {
            Some(op) => Some(
                RiscvCJTypeInstruction {
                    opcode: op,
                    imm_bit5: ((v >> 2u16) & 0x1) as u8,
                    imm_3_1: ((v >> 3u16) & 0x7) as u8,
                    imm_bit7: ((v >> 6u16) & 0x1) as u8,
                    imm_bit6: ((v >> 7u16) & 0x1) as u8,
                    imm_bit10: ((v >> 8u16) & 0x1) as u8,
                    imm_9_8: ((v >> 9u16) & 0x3) as u8,
                    imm_bit4: ((v >> 11u16) & 0x1) as u8,
                    imm_bit11: ((v >> 12u16) & 0x1) as u8,
                    funct3: ((v >> 13u16) & 0x7) as u8,
                },
            ),
            None => None,
        }
    }

    pub open spec fn wf(self) -> bool {
        self.imm_bit5 <= 0x1 && self.imm_3_1 <= 0x7 && self.imm_bit7 <= 0x1 && self.imm_bit6 <= 0x1 && self.imm_bit10 <= 0x1 && self.imm_9_8 <= 0x3 && self.imm_bit4 <= 0x1 && self.imm_bit11 <= 0x1 && self.funct3 <= 0x7
    }

    /// The jump offset of C.J, offset[11:1] in order (not sign-extended: the
    /// J-type encoding it is placed in keeps bits 1..=11 and bit 11 is the
    /// sign).
    pub open spec fn imm_value(self) -> Option<u32> {
        if self.opcode == RiscvCompressedOpcode::C1 && self.funct3 == 5 {
            Some(
                ((self.imm_bit11 as u32) << 11u32) | ((self.imm_bit10 as u32) << 10u32) | ((
                self.imm_9_8 as u32) << 8u32) | ((self.imm_bit7 as u32) << 7u32) | ((
                self.imm_bit6 as u32) << 6u32) | ((self.imm_bit5 as u32) << 5u32) | ((
                self.imm_bit4 as u32) << 4u32) | ((self.imm_3_1 as u32) << 1u32),
            )
        } else {
            None
        }
    }

    pub fn unpack(bytes: &[u8; 2]) -> (r: Option<Self>)
        ensures
            r == Self::from_half(be_u16(bytes@)),
            r matches Some(i) ==> i.wf(),
    {
        let v = u16_from_msb_bytes(bytes);
        let opcode = RiscvCompressedOpcode::from_primitive((v & 0b11) as u8)?;
        let imm_bit5 = ((v >> 2u16) & 0x1) as u8;
        proof {
            lemma_field_u16(v, 2u16, 0x1);
        }
        let imm_3_1 = ((v >> 3u16) & 0x7) as u8;
        proof {
            lemma_field_u16(v, 3u16, 0x7);
        }
        let imm_bit7 = ((v >> 6u16) & 0x1) as u8;
        proof {
            lemma_field_u16(v, 6u16, 0x1);
        }
        let imm_bit6 = ((v >> 7u16) & 0x1) as u8;
        proof {
            lemma_field_u16(v, 7u16, 0x1);
        }
        let imm_bit10 = ((v >> 8u16) & 0x1) as u8;
        proof {
            lemma_field_u16(v, 8u16, 0x1);
        }
        let imm_9_8 = ((v >> 9u16) & 0x3) as u8;
        proof {
            lemma_field_u16(v, 9u16, 0x3);
        }
        let imm_bit4 = ((v >> 11u16) & 0x1) as u8;
        proof {
            lemma_field_u16(v, 11u16, 0x1);
        }
        let imm_bit11 = ((v >> 12u16) & 0x1) as u8;
        proof {
            lemma_field_u16(v, 12u16, 0x1);
        }
        let funct3 = ((v >> 13u16) & 0x7) as u8;
        proof {
            lemma_field_u16(v, 13u16, 0x7);
        }
        Some(RiscvCJTypeInstruction { opcode, imm_bit5, imm_3_1, imm_bit7, imm_bit6, imm_bit10, imm_9_8, imm_bit4, imm_bit11, funct3 })
    }

    pub fn parse_imm(&self) -> (r: Option<u32>)
        ensures
            r == self.imm_value(),
    {
        match (self.funct3, self.opcode) {
            (0b101, RiscvCompressedOpcode::C1) => Some(
                (self.imm_bit11 as u32) << 11u32 | (self.imm_bit10 as u32) << 10u32 | (
                self.imm_9_8 as u32) << 8u32 | (self.imm_bit7 as u32) << 7u32 | (
                self.imm_bit6 as u32) << 6u32 | (self.imm_bit5 as u32) << 5u32 | (
                self.imm_bit4 as u32) << 4u32 | (self.imm_3_1 as u32) << 1u32,
            ),
            _ => return None,
        }
    }
}

} // verus!
