//! ELF executables: the identification, the file header and the program
//! headers, for 32- and 64-bit files of either byte order.
use crate::x86_kernel::ext2::record::{le_value, lemma_le_value_bound, lemma_pow256_monotonic, lemma_pow256_values, pow256, read_le};
use vstd::prelude::*;

verus! {

/// What kind of file an ELF file is.
#[derive(Debug, Clone, Copy, PartialEq, Eq, Structural)]
#[allow(non_camel_case_types)]
pub enum ElfType {
    RELOCATABLE,
    EXECUTABLE,
    SHARED,
    CORE,
}

/// The machine an ELF file is for.
#[derive(Debug, Clone, Copy, PartialEq, Eq, Structural)]
pub enum InstructionSet {
    SPARC,
    X86,
    MIPS,
    PowerPC,
    ARM,
    SuperH,
    IA64,
    X86_64,
    AArch64,
    RiscV,
}

/// The known kinds of program header.
#[derive(Debug, Clone, Copy, PartialEq, Eq, Structural)]
pub enum ProgramHeaderType {
    Null,
    Load,
    Dynamic,
    Interp,
    Note,
}

/// The kind of a program header: a known one, or the number of another.
#[derive(Debug, Clone, Copy, PartialEq, Eq, Structural)]
pub enum SegmentType {
    Known(ProgramHeaderType),
    Other(u32),
}

/// The permissions of a segment.
#[derive(Debug, Clone, Copy, PartialEq, Eq, Structural)]
pub struct Flags {
    pub executable: bool,
    pub writeable: bool,
    pub readable: bool,
}

/// The file header, whatever the width and byte order of the file.
#[derive(Debug, Clone, Copy, PartialEq, Eq, Structural)]
pub struct UniversalElfHeader {
    pub elf_type: ElfType,
    pub instruction_set: InstructionSet,
    pub elf_header_version: u32,
    pub program_entry: u64,
    pub program_header_table_offset: u64,
    pub section_header_table_offset: u64,
    pub flags: u32,
    pub header_size: u16,
    pub program_header_table_entry_size: u16,
    pub program_header_table_len: u16,
    pub section_header_table_entry_size: u16,
    pub section_header_table_len: u16,
    pub section_header_table_index_of_names: u16,
}

/// A program header, whatever the width and byte order of the file.
#[derive(Debug, Clone, Copy, PartialEq, Eq, Structural)]
pub struct UniversalProgramHeader {
    pub segment_type: SegmentType,
    pub flags: Flags,
    pub segment_file_offset: u64,
    pub segment_virtual_address: u64,
    pub segment_file_size: u64,
    pub segment_virtual_size: u64,
}

/// An ELF file: its header and its program headers.
pub struct ElfFile {
    pub header: UniversalElfHeader,
    pub program_headers: Vec<UniversalProgramHeader>,
}

/// The value of the bytes `s`, most significant first.
pub open spec fn be_value(s: Seq<u8>) -> nat
    decreases s.len(),
{
    if s.len() == 0 {
        0
    } else {
        s.last() as nat + 256 * be_value(s.drop_last())
    }
}

proof fn lemma_be_value_bound(s: Seq<u8>)
    ensures
        be_value(s) < pow256(s.len()),
    decreases s.len(),
{
    if s.len() > 0 {
        lemma_be_value_bound(s.drop_last());
    }
}

/// The value of the `w` bytes of `b` from `off` on, in the given byte order.
pub open spec fn uint_at(b: Seq<u8>, off: int, w: nat, little: bool) -> nat {
    if little {
        le_value(b.subrange(off, off + w))
    } else {
        be_value(b.subrange(off, off + w))
    }
}

/// The value of the `w` bytes of `b` from `off` on, most significant first.
fn read_be(b: &[u8], off: usize, w: usize) -> (r: u64)
    requires
        off + w <= b@.len(),
        w <= 8,
    ensures
        r == be_value(b@.subrange(off as int, off + w)),
    decreases w,
{
    if w == 0 {
        return 0;
    }
    let _len = b.len();
    let rest = read_be(b, off, w - 1);
    proof {
        lemma_be_value_bound(b@.subrange(off as int, off + w - 1));
        lemma_pow256_monotonic((w - 1) as nat, 7);
        lemma_pow256_values();
        assert(b@.subrange(off as int, off + w).drop_last() =~= b@.subrange(off as int, off + w - 1));
    }
    b[off + w - 1] as u64 + 256 * rest
}

/// The value of the `w` bytes of `b` from `off` on, in the given byte order.
fn read_uint(b: &[u8], off: usize, w: usize, little: bool) -> (r: u64)
    requires
        off + w <= b@.len(),
        w <= 8,
    ensures
        r == uint_at(b@, off as int, w as nat, little),
{
    if little {
        read_le(b, off, w)
    } else {
        read_be(b, off, w)
    }
}

/// The file type numbered `v`.
pub open spec fn elf_type_of(v: nat) -> Option<ElfType> {
    if v == 1 {
        Some(ElfType::RELOCATABLE)
    } else if v == 2 {
        Some(ElfType::EXECUTABLE)
    } else if v == 3 {
        Some(ElfType::SHARED)
    } else if v == 4 {
        Some(ElfType::CORE)
    } else {
        None
    }
}

/// The machine numbered `v`.
pub open spec fn instruction_set_of(v: nat) -> Option<InstructionSet> {
    if v == 2 {
        Some(InstructionSet::SPARC)
    } else if v == 3 {
        Some(InstructionSet::X86)
    } else if v == 8 {
        Some(InstructionSet::MIPS)
    } else if v == 0x14 {
        Some(InstructionSet::PowerPC)
    } else if v == 0x28 {
        Some(InstructionSet::ARM)
    } else if v == 0x2A {
        Some(InstructionSet::SuperH)
    } else if v == 0x32 {
        Some(InstructionSet::IA64)
    } else if v == 0x3E {
        Some(InstructionSet::X86_64)
    } else if v == 0xB7 {
        Some(InstructionSet::AArch64)
    } else if v == 0xF3 {
        Some(InstructionSet::RiscV)
    } else {
        None
    }
}

/// The kind of program header numbered `v`.
pub open spec fn segment_type_of(v: u32) -> SegmentType {
    if v == 0 {
        SegmentType::Known(ProgramHeaderType::Null)
    } else if v == 1 {
        SegmentType::Known(ProgramHeaderType::Load)
    } else if v == 2 {
        SegmentType::Known(ProgramHeaderType::Dynamic)
    } else if v == 3 {
        SegmentType::Known(ProgramHeaderType::Interp)
    } else if v == 4 {
        SegmentType::Known(ProgramHeaderType::Note)
    } else {
        SegmentType::Other(v)
    }
}

fn elf_type_from(v: u64) -> (r: Option<ElfType>)
    ensures
        r == elf_type_of(v as nat),
{
    if v == 1 {
        Some(ElfType::RELOCATABLE)
    } else if v == 2 {
        Some(ElfType::EXECUTABLE)
    } else if v == 3 {
        Some(ElfType::SHARED)
    } else if v == 4 {
        Some(ElfType::CORE)
    } else {
        None
    }
}

fn instruction_set_from(v: u64) -> (r: Option<InstructionSet>)
    ensures
        r == instruction_set_of(v as nat),
{
    if v == 2 {
        Some(InstructionSet::SPARC)
    } else if v == 3 {
        Some(InstructionSet::X86)
    } else if v == 8 {
        Some(InstructionSet::MIPS)
    } else if v == 0x14 {
        Some(InstructionSet::PowerPC)
    } else if v == 0x28 {
        Some(InstructionSet::ARM)
    } else if v == 0x2A {
        Some(InstructionSet::SuperH)
    } else if v == 0x32 {
        Some(InstructionSet::IA64)
    } else if v == 0x3E {
        Some(InstructionSet::X86_64)
    } else if v == 0xB7 {
        Some(InstructionSet::AArch64)
    } else if v == 0xF3 {
        Some(InstructionSet::RiscV)
    } else {
        None
    }
}

fn segment_type_from(v: u32) -> (r: SegmentType)
    ensures
        r == segment_type_of(v),
{
    if v == 0 {
        SegmentType::Known(ProgramHeaderType::Null)
    } else if v == 1 {
        SegmentType::Known(ProgramHeaderType::Load)
    } else if v == 2 {
        SegmentType::Known(ProgramHeaderType::Dynamic)
    } else if v == 3 {
        SegmentType::Known(ProgramHeaderType::Interp)
    } else if v == 4 {
        SegmentType::Known(ProgramHeaderType::Note)
    } else {
        SegmentType::Other(v)
    }
}

/// The size of the identification on disk, before the file header's fields.
pub open spec fn identification_size() -> nat {
    16
}

/// The size of the file header's fields after the identification.
pub open spec fn header_fields_size(wide: bool) -> nat {
    if wide {
        48
    } else {
        36
    }
}

/// The size of the fields of a program header that are read.
pub open spec fn program_header_size(wide: bool) -> nat {
    if wide {
        48
    } else {
        28
    }
}

/// What the identification (`b` holds at least its 7 bytes) says: the byte
/// order (little-endian or not) and width (64-bit or not), or `None` where it
/// names neither width nor order of its two, or is no ELF identification of
/// version 1.
pub open spec fn identification(b: Seq<u8>) -> Option<(bool, bool)> {
    let width = b[4];
    let order = b[5];
    if !(width == 1 || width == 2) || !(order == 1 || order == 2) {
        None
    } else if b[0] != 0x7f || b[1] != 0x45 || b[2] != 0x4c || b[3] != 0x46 || b[6] != 1 {
        None
    } else {
        Some((order == 1, width == 2))
    }
}

/// A field of the file header: `w` bytes at `off` after the identification.
pub open spec fn header_field(b: Seq<u8>, little: bool, off: int, w: nat) -> nat {
    uint_at(b, identification_size() + off, w, little)
}

/// The file header (its fields in `b`, after the identification), or `None`
/// where it names an unknown file type or machine.
pub open spec fn header_at(b: Seq<u8>, little: bool, wide: bool) -> Option<UniversalElfHeader> {
    match (elf_type_of(header_field(b, little, 0, 2)), instruction_set_of(header_field(b, little, 2, 2))) {
        (Some(t), Some(i)) => Some(
            UniversalElfHeader {
                elf_type: t,
                instruction_set: i,
                elf_header_version: header_field(b, little, 4, 4) as u32,
                program_entry: (if wide {
                    header_field(b, little, 8, 8)
                } else {
                    header_field(b, little, 8, 4)
                }) as u64,
                program_header_table_offset: (if wide {
                    header_field(b, little, 16, 8)
                } else {
                    header_field(b, little, 12, 4)
                }) as u64,
                section_header_table_offset: (if wide {
                    header_field(b, little, 24, 8)
                } else {
                    header_field(b, little, 16, 4)
                }) as u64,
                flags: header_field(b, little, if wide { 32 } else { 20 }, 4) as u32,
                header_size: header_field(b, little, if wide { 36 } else { 24 }, 2) as u16,
                program_header_table_entry_size: header_field(b, little, if wide { 38 } else { 26 }, 2) as u16,
                program_header_table_len: header_field(b, little, if wide { 40 } else { 28 }, 2) as u16,
                section_header_table_entry_size: header_field(b, little, if wide { 42 } else { 30 }, 2) as u16,
                section_header_table_len: header_field(b, little, if wide { 44 } else { 32 }, 2) as u16,
                section_header_table_index_of_names: header_field(b, little, if wide { 46 } else { 34 }, 2) as u16,
            },
        ),
        _ => None,
    }
}

/// The permissions in the 4 bytes from `off` on: bits 0, 1 and 2 of the
/// fourth of them.
pub open spec fn flags_at(b: Seq<u8>, off: int) -> Flags {
    let x = b[off + 3];
    Flags { executable: x & 1 != 0, writeable: x & 2 != 0, readable: x & 4 != 0 }
}

/// The program header whose fields start at `off`.
pub open spec fn program_header_at(b: Seq<u8>, off: int, little: bool, wide: bool) -> UniversalProgramHeader {
    if wide {
        UniversalProgramHeader {
            segment_type: segment_type_of(uint_at(b, off, 4, little) as u32),
            flags: flags_at(b, off + 4),
            segment_file_offset: uint_at(b, off + 8, 8, little) as u64,
            segment_virtual_address: uint_at(b, off + 16, 8, little) as u64,
            segment_file_size: uint_at(b, off + 32, 8, little) as u64,
            segment_virtual_size: uint_at(b, off + 40, 8, little) as u64,
        }
    } else {
        UniversalProgramHeader {
            segment_type: segment_type_of(uint_at(b, off, 4, little) as u32),
            flags: flags_at(b, off + 24),
            segment_file_offset: uint_at(b, off + 4, 4, little) as u64,
            segment_virtual_address: uint_at(b, off + 8, 4, little) as u64,
            segment_file_size: uint_at(b, off + 16, 4, little) as u64,
            segment_virtual_size: uint_at(b, off + 20, 4, little) as u64,
        }
    }
}

/// The header is of a size that fits its width, and of version 1.
pub open spec fn header_accepted(h: UniversalElfHeader, wide: bool) -> bool {
    &&& h.header_size == identification_size() + header_fields_size(wide)
    &&& h.elf_header_version == 1
}

/// Reading the `n` program headers `es` bytes apart from `off` would reach
/// past the `len` bytes of the file or past the largest offset.
pub open spec fn program_headers_overrun(len: nat, off: nat, n: nat, es: nat, wide: bool) -> bool {
    ||| (n > 0 && off + (n - 1) * es + program_header_size(wide) > len)
    ||| off + n * es > usize::MAX
}

/// Reading `b` as an ELF file would index past its end: where it is too
/// short for the identification, for the header of an accepted
/// identification, or for the program headers of an accepted header.
pub open spec fn elf_overruns(b: Seq<u8>) -> bool {
    ||| b.len() < 7
    ||| match identification(b) {
        Some((little, wide)) => b.len() < identification_size() + header_fields_size(wide) || match header_at(
            b,
            little,
            wide,
        ) {
            Some(h) => header_accepted(h, wide) && program_headers_overrun(
                b.len(),
                h.program_header_table_offset as nat,
                h.program_header_table_len as nat,
                h.program_header_table_entry_size as nat,
                wide,
            ),
            None => false,
        },
        None => false,
    }
}

/// The header and program headers of the ELF file `b` (which does not
/// overrun), or `None` where it is no ELF file that is read.
pub open spec fn elf_contents(b: Seq<u8>) -> Option<(UniversalElfHeader, Seq<UniversalProgramHeader>)> {
    match identification(b) {
        Some((little, wide)) => match header_at(b, little, wide) {
            Some(h) => if header_accepted(h, wide) {
                let off = h.program_header_table_offset as int;
                let es = h.program_header_table_entry_size as int;
                Some(
                    (
                        h,
                        Seq::new(
                            h.program_header_table_len as nat,
                            |i: int| program_header_at(b, off + i * es, little, wide),
                        ),
                    ),
                )
            } else {
                None
            },
            None => None,
        },
        None => None,
    }
}

/// What reading bytes as an ELF file gives: it would index past their end,
/// they are no ELF file that is read, or the file.
pub enum ElfReading {
    Overrun,
    Invalid,
    Valid(ElfFile),
}

impl ElfFile {
    fn read_flags(b: &[u8], off: usize) -> (r: Flags)
        requires
            off + 4 <= b@.len(),
        ensures
            r == flags_at(b@, off as int),
    {
        let _len = b.len();
        let x = b[off + 3];
        Flags { executable: x & 1 != 0, writeable: x & 2 != 0, readable: x & 4 != 0 }
    }

    fn read_program_header(b: &[u8], off: usize, little: bool, wide: bool) -> (r: UniversalProgramHeader)
        requires
            off + program_header_size(wide) <= b@.len(),
        ensures
            r == program_header_at(b@, off as int, little, wide),
    {
        let _len = b.len();
        let st = segment_type_from(read_uint(b, off, 4, little) as u32);
        if wide {
            UniversalProgramHeader {
                segment_type: st,
                flags: Self::read_flags(b, off + 4),
                segment_file_offset: read_uint(b, off + 8, 8, little),
                segment_virtual_address: read_uint(b, off + 16, 8, little),
                segment_file_size: read_uint(b, off + 32, 8, little),
                segment_virtual_size: read_uint(b, off + 40, 8, little),
            }
        } else {
            UniversalProgramHeader {
                segment_type: st,
                flags: Self::read_flags(b, off + 24),
                segment_file_offset: read_uint(b, off + 4, 4, little),
                segment_virtual_address: read_uint(b, off + 8, 4, little),
                segment_file_size: read_uint(b, off + 16, 4, little),
                segment_virtual_size: read_uint(b, off + 20, 4, little),
            }
        }
    }

    fn read_header(b: &[u8], little: bool, wide: bool) -> (r: Option<UniversalElfHeader>)
        requires
            identification_size() + header_fields_size(wide) <= b@.len(),
        ensures
            r == header_at(b@, little, wide),
    {
        let t = elf_type_from(read_uint(b, 16, 2, little));
        let i = instruction_set_from(read_uint(b, 18, 2, little));
        let (elf_type, instruction_set) = match (t, i) {
            (Some(t), Some(i)) => (t, i),
            _ => {
                return None;
            },
        };
        let h = if wide {
            UniversalElfHeader {
                elf_type,
                instruction_set,
                elf_header_version: read_uint(b, 20, 4, little) as u32,
                program_entry: read_uint(b, 24, 8, little),
                program_header_table_offset: read_uint(b, 32, 8, little),
                section_header_table_offset: read_uint(b, 40, 8, little),
                flags: read_uint(b, 48, 4, little) as u32,
                header_size: read_uint(b, 52, 2, little) as u16,
                program_header_table_entry_size: read_uint(b, 54, 2, little) as u16,
                program_header_table_len: read_uint(b, 56, 2, little) as u16,
                section_header_table_entry_size: read_uint(b, 58, 2, little) as u16,
                section_header_table_len: read_uint(b, 60, 2, little) as u16,
                section_header_table_index_of_names: read_uint(b, 62, 2, little) as u16,
            }
        } else {
            UniversalElfHeader {
                elf_type,
                instruction_set,
                elf_header_version: read_uint(b, 20, 4, little) as u32,
                program_entry: read_uint(b, 24, 4, little),
                program_header_table_offset: read_uint(b, 28, 4, little),
                section_header_table_offset: read_uint(b, 32, 4, little),
                flags: read_uint(b, 36, 4, little) as u32,
                header_size: read_uint(b, 40, 2, little) as u16,
                program_header_table_entry_size: read_uint(b, 42, 2, little) as u16,
                program_header_table_len: read_uint(b, 44, 2, little) as u16,
                section_header_table_entry_size: read_uint(b, 46, 2, little) as u16,
                section_header_table_len: read_uint(b, 48, 2, little) as u16,
                section_header_table_index_of_names: read_uint(b, 50, 2, little) as u16,
            }
        };
        Some(h)
    }

    /// Reads `bytes` as an ELF file: the identification (magic, width, byte
    /// order, version 1), then the file header (a known type and machine, the
    /// size its width gives, version 1), then the program headers the header
    /// points to. Says where reading would index past the end of `bytes`.
    pub fn read(bytes: &[u8]) -> (r: ElfReading)
        ensures
            match r {
                ElfReading::Overrun => elf_overruns(bytes@),
                ElfReading::Invalid => !elf_overruns(bytes@) && elf_contents(bytes@) is None,
                ElfReading::Valid(e) => !elf_overruns(bytes@) && elf_contents(bytes@) == Some(
                    (e.header, e.program_headers@),
                ),
            },
    {
        let len = bytes.len();
        if len < 7 {
            return ElfReading::Overrun;
        }
        let width = bytes[4];
        let order = bytes[5];
        if !(width == 1 || width == 2) || !(order == 1 || order == 2) {
            return ElfReading::Invalid;
        }
        if bytes[0] != 0x7f || bytes[1] != 0x45 || bytes[2] != 0x4c || bytes[3] != 0x46 || bytes[6] != 1 {
            return ElfReading::Invalid;
        }
        let little = order == 1;
        let wide = width == 2;
        let header_end: usize = if wide {
            64
        } else {
            52
        };
        if len < header_end {
            return ElfReading::Overrun;
        }
        let h = match Self::read_header(bytes, little, wide) {
            Some(h) => h,
            None => {
                return ElfReading::Invalid;
            },
        };
        if h.header_size as usize != header_end || h.elf_header_version != 1 {
            return ElfReading::Invalid;
        }
        let ph_size: usize = if wide {
            48
        } else {
            28
        };
        let n = h.program_header_table_len as usize;
        let es = h.program_header_table_entry_size as usize;
        let off0 = h.program_header_table_offset;
        let ghost bound = off0 as nat + n * es;
        if n > 0 {
            if off0 > len as u64 {
                return ElfReading::Overrun;
            }
            assert((n - 1) * es <= 0xffff * 0xffff) by (nonlinear_arith)
                requires
                    0 < n <= 0xffff,
                    es <= 0xffff,
            ;
            let last = (n - 1) as u64 * es as u64;
            if last > len as u64 - off0 || ph_size as u64 > len as u64 - off0 - last {
                return ElfReading::Overrun;
            }
        }
        proof {
            assert(n * es <= 0xffff * 0xffff) by (nonlinear_arith)
                requires
                    n <= 0xffff,
                    es <= 0xffff,
            ;
        }
        if off0 as u128 + (n as u128) * (es as u128) > usize::MAX as u128 {
            return ElfReading::Overrun;
        }
        let mut headers: Vec<UniversalProgramHeader> = Vec::new();
        let mut cur = off0 as usize;
        let mut i: usize = 0;
        while i < n
            invariant
                i <= n,
                n == h.program_header_table_len as nat,
                es == h.program_header_table_entry_size as nat,
                len == bytes@.len(),
                cur == off0 + i * es,
                off0 + n * es <= usize::MAX,
                n > 0 ==> off0 + (n - 1) * es + ph_size <= len,
                ph_size == program_header_size(wide),
                headers@.len() == i,
                forall|j: int| 0 <= j < i ==> #[trigger] headers@[j] == program_header_at(
                    bytes@,
                    off0 + j * es,
                    little,
                    wide,
                ),
            decreases n - i,
        {
            proof {
                assert(i * es <= (n - 1) * es) by (nonlinear_arith)
                    requires
                        i < n,
                ;
                assert((i + 1) * es <= n * es) by (nonlinear_arith)
                    requires
                        i < n,
                ;
                assert((i + 1) * es == i * es + es) by (nonlinear_arith);
            }
            let ph = Self::read_program_header(bytes, cur, little, wide);
            headers.push(ph);
            cur = cur + es;
            i = i + 1;
        }
        let e = ElfFile { header: h, program_headers: headers };
        assert(e.program_headers@ =~= Seq::new(
            h.program_header_table_len as nat,
            |j: int| program_header_at(bytes@, off0 + j * es, little, wide),
        ));
        ElfReading::Valid(e)
    }

    /// The ELF file in `bytes` (which reading must not overrun): `None` where
    /// they are no ELF file that is read (see [`ElfFile::read`]).
    pub fn from_bytes(bytes: &[u8]) -> (r: Option<ElfFile>)
        requires
            !elf_overruns(bytes@),
        ensures
            match r {
                Some(e) => elf_contents(bytes@) == Some((e.header, e.program_headers@)),
                None => elf_contents(bytes@) is None,
            },
    {
        match Self::read(bytes) {
            ElfReading::Valid(e) => Some(e),
            _ => None,
        }
    }
}

} // verus!
