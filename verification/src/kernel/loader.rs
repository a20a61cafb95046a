//! Loading a program: the segments of its ELF file, its arguments and its
//! environment, into the virtual memory of a new process.
use crate::bytes::{le_bytes_u64, put_u64_le};
use crate::kernel::allocator::{BasicAlloc, Layout};
use crate::kernel::process::{env_names_distinct, FdMapping, ProcessData, ProcessState};
use crate::kernel::scheduler::Process;
use crate::kernel::emulator::cpu::{reg_write, Riscv64Cpu};
use crate::kernel::vfs::Path;
use crate::kernel::virtmem::{regions_wf, LittleEndianVirtualMemory, VirtRegion, VirtualMemory};
use crate::text::{c_size, c_string, c_string_bytes};
use crate::x86_kernel::elf::{
    elf_contents, elf_overruns, ElfFile, ElfType, InstructionSet, ProgramHeaderType, SegmentType, UniversalElfHeader,
    UniversalProgramHeader,
};
use vstd::prelude::*;
use vstd::string::*;
use vstd::utf8::encode_utf8;

verus! {

/// A program header that asks for its segment to be loaded.
pub open spec fn is_load(ph: UniversalProgramHeader) -> bool {
    ph.segment_type == SegmentType::Known(ProgramHeaderType::Load)
}

/// A program header that asks for an interpreter.
pub open spec fn is_interp(ph: UniversalProgramHeader) -> bool {
    ph.segment_type == SegmentType::Known(ProgramHeaderType::Interp)
}

/// The program headers `phs` ask for no interpreter.
pub open spec fn no_interp(phs: Seq<UniversalProgramHeader>) -> bool {
    forall|i: int| 0 <= i < phs.len() ==> !is_interp(#[trigger] phs[i])
}

/// The segments to load, in order.
pub open spec fn loads(phs: Seq<UniversalProgramHeader>) -> Seq<UniversalProgramHeader>
    decreases phs.len(),
{
    if phs.len() == 0 {
        Seq::empty()
    } else if is_load(phs.last()) {
        loads(phs.drop_last()).push(phs.last())
    } else {
        loads(phs.drop_last())
    }
}

/// The bytes of a loaded segment: its bytes in the file `b`, cut or filled up
/// with zeros to its size in memory.
pub open spec fn segment_bytes(b: Seq<u8>, ph: UniversalProgramHeader) -> Seq<u8> {
    let data = b.subrange(ph.segment_file_offset as int, ph.segment_file_offset + ph.segment_file_size);
    if ph.segment_virtual_size <= ph.segment_file_size {
        data.subrange(0, ph.segment_virtual_size as int)
    } else {
        data + Seq::new((ph.segment_virtual_size - ph.segment_file_size) as nat, |_i: int| 0u8)
    }
}

/// The segment lies within the `len` bytes of the file, and its addresses
/// within the largest one.
pub open spec fn segment_in_bounds(len: nat, ph: UniversalProgramHeader) -> bool {
    &&& ph.segment_file_offset + ph.segment_file_size <= len
    &&& ph.segment_virtual_address + ph.segment_virtual_size <= u64::MAX
    &&& ph.segment_virtual_size <= usize::MAX
}

/// Each segment that loading reaches (the loads before the first request for
/// an interpreter) lies within the file and the address space.
pub open spec fn segments_in_bounds(len: nat, phs: Seq<UniversalProgramHeader>) -> bool {
    forall|i: int|
        0 <= i < phs.len() && is_load(#[trigger] phs[i]) && no_interp(phs.take(i)) ==> segment_in_bounds(
            len,
            phs[i],
        )
}

/// A region with the addresses from `s1` (`l1` of them) shares an address
/// with the `l2` addresses from `s2`, as the virtual memory sees it.
pub open spec fn ranges_clash(s1: u64, l1: nat, s2: u64, l2: nat) -> bool {
    !(s1 > s2 - 1 + l2 || s1 - 1 + l1 < s2)
}

/// The segments `ls` can be added one after the other to memory holding the
/// regions `rs`: none starts at address 0, and none shares an address with a
/// region there or a segment before it.
pub open spec fn segments_fit(rs: Seq<VirtRegion>, ls: Seq<UniversalProgramHeader>) -> bool {
    forall|j: int|
        0 <= j < ls.len() ==> {
            &&& (#[trigger] ls[j]).segment_virtual_address >= 1
            &&& forall|i: int|
                0 <= i < rs.len() ==> !rs[i].overlaps_range(
                    ls[j].segment_virtual_address,
                    ls[j].segment_virtual_size as nat,
                )
            &&& forall|k: int|
                0 <= k < j ==> !ranges_clash(
                    ls[k].segment_virtual_address,
                    ls[k].segment_virtual_size as nat,
                    ls[j].segment_virtual_address,
                    ls[j].segment_virtual_size as nat,
                )
        }
}

/// The first address after all of the segments `ls` (0 for none).
pub open spec fn segments_end(ls: Seq<UniversalProgramHeader>) -> nat
    decreases ls.len(),
{
    if ls.len() == 0 {
        0
    } else {
        let e = ls.last().segment_virtual_address + ls.last().segment_virtual_size;
        let before = segments_end(ls.drop_last());
        if e > before {
            e as nat
        } else {
            before
        }
    }
}

/// The regions `rs` after the segments `ls` of the file `b` are added.
pub open spec fn regions_with_segments(
    old_rs: Seq<VirtRegion>,
    rs: Seq<VirtRegion>,
    b: Seq<u8>,
    ls: Seq<UniversalProgramHeader>,
) -> bool {
    &&& rs.len() == old_rs.len() + ls.len()
    &&& rs.subrange(0, old_rs.len() as int) == old_rs
    &&& forall|i: int|
        0 <= i < ls.len() ==> (#[trigger] rs[old_rs.len() + i]).virtual_start == ls[i].segment_virtual_address
            && rs[old_rs.len() + i].backing_storage@ == segment_bytes(b, ls[i])
}

/// The bytes of a segment, filled up or cut to its size in memory.
fn segment_data(b: &[u8], ph: &UniversalProgramHeader) -> (r: Vec<u8>)
    requires
        segment_in_bounds(b@.len(), *ph),
    ensures
        r@ == segment_bytes(b@, *ph),
{
    let _len = b.len();
    let start = ph.segment_file_offset as usize;
    let file_end = (ph.segment_file_offset + ph.segment_file_size) as usize;
    let size = ph.segment_virtual_size as usize;
    let mut out: Vec<u8> = Vec::new();
    let mut i: usize = start;
    let ghost data = b@.subrange(start as int, file_end as int);
    while i < file_end && out.len() < size
        invariant
            start <= i <= file_end <= b@.len(),
            data == b@.subrange(start as int, file_end as int),
            out@ == data.subrange(0, i - start),
            out@.len() <= size,
        decreases file_end - i,
    {
        out.push(b[i]);
        i = i + 1;
        assert(out@ =~= data.subrange(0, i - start));
    }
    assert(out@.len() == i - start);
    let ghost copied = out@;
    while out.len() < size
        invariant
            copied.len() <= out@.len() <= size,
            out@ == copied + Seq::new((out@.len() - copied.len()) as nat, |_i: int| 0u8),
        decreases size - out@.len(),
    {
        out.push(0);
        assert(out@ =~= copied + Seq::new((out@.len() - copied.len()) as nat, |_i: int| 0u8));
    }
    proof {
        if ph.segment_virtual_size <= ph.segment_file_size {
            assert(out@ =~= data.subrange(0, size as int));
        } else {
            assert(i == file_end);
            assert(copied =~= data);
        }
    }
    out
}

impl<F, D> Process<Riscv64Cpu<LittleEndianVirtualMemory>, F, D> {
    /// Loads the segments of the ELF file `elf`, read from `elf_bytes`, into
    /// `virt_mem`, each at its address, filled up with zeros (or cut) to its
    /// size in memory: the first address after all of them (0 for none), or
    /// `None` where the file asks for an interpreter or a segment cannot be
    /// added (it would start at address 0 or share an address with a region).
    pub fn load_elf_into_virtual_memory(
        elf: &ElfFile,
        elf_bytes: &[u8],
        virt_mem: &mut LittleEndianVirtualMemory,
    ) -> (r: Option<u64>)
        requires
            regions_wf(old(virt_mem).regions()),
            segments_in_bounds(elf_bytes@.len(), elf.program_headers@),
        ensures
            regions_wf(final(virt_mem).regions()),
            ({
                let phs = elf.program_headers@;
                let ok = no_interp(phs) && segments_fit(old(virt_mem).regions(), loads(phs));
                &&& r is Some <==> ok
                &&& r is Some ==> forall|m: int|
                    0 <= m < loads(phs).len() ==> segment_in_bounds(elf_bytes@.len(), #[trigger] loads(phs)[m])
                &&& r matches Some(lower) ==> lower == segments_end(loads(phs)) && regions_with_segments(
                    old(virt_mem).regions(),
                    final(virt_mem).regions(),
                    elf_bytes@,
                    loads(phs),
                )
            }),
    {
        let ghost phs = elf.program_headers@;
        let ghost old_rs = virt_mem.regions();
        let ghost len = elf_bytes@.len();
        let mut lower: u64 = 0;
        let mut i: usize = 0;
        let n = elf.program_headers.len();
        assert(phs.take(0) =~= Seq::<UniversalProgramHeader>::empty());
        assert(old_rs.subrange(0, old_rs.len() as int) =~= old_rs);
        while i < n
            invariant
                n == phs.len(),
                phs == elf.program_headers@,
                len == elf_bytes@.len(),
                i <= n,
                old_rs == old(virt_mem).regions(),
                regions_wf(old_rs),
                regions_wf(virt_mem.regions()),
                segments_in_bounds(len, phs),
                no_interp(phs.take(i as int)),
                forall|m: int| 0 <= m < loads(phs.take(i as int)).len() ==> segment_in_bounds(len, #[trigger] loads(phs.take(i as int))[m]),
                segments_fit(old_rs, loads(phs.take(i as int))),
                lower == segments_end(loads(phs.take(i as int))),
                regions_with_segments(old_rs, virt_mem.regions(), elf_bytes@, loads(phs.take(i as int))),
            decreases n - i,
        {
            let ph = &elf.program_headers[i];
            let ghost before = phs.take(i as int);
            let ghost li = loads(before);
            proof {
                assert(phs.take(i + 1).drop_last() =~= before);
                assert(phs.take(i + 1).last() == phs[i as int]);
                lemma_loads_prefix(phs, i + 1);
            }
            if ph.segment_type == SegmentType::Known(ProgramHeaderType::Interp) {
                proof {
                    assert(is_interp(phs[i as int]));
                }
                return None;
            }
            if ph.segment_type == SegmentType::Known(ProgramHeaderType::Load) {
                proof {
                    assert(is_load(phs[i as int]));
                    assert(loads(phs.take(i + 1)) == li.push(phs[i as int]));
                    assert forall|k: int| 0 <= k < i implies !is_interp(#[trigger] phs.take(i as int)[k]) by {}
                    assert(segment_in_bounds(len, phs[i as int]));
                    lemma_segment_len(elf_bytes@, phs[i as int]);
                }
                let segment = segment_data(elf_bytes, ph);
                let end = ph.segment_virtual_address + segment.len() as u64;
                if ph.segment_virtual_address == 0 {
                    proof {
                        let ls = loads(phs);
                        let j = li.len() as int;
                        assert(ls[j] == phs[i as int]);
                        assert(!segments_fit(old_rs, ls)) by {
                            if segments_fit(old_rs, ls) {
                                assert(ls[j].segment_virtual_address >= 1);
                            }
                        }
                    }
                    return None;
                }
                let ghost rs_before = virt_mem.regions();
                match virt_mem.add_region(ph.segment_virtual_address, segment) {
                    Some(_) => {},
                    None => {
                        proof {
                            let ls = loads(phs);
                            let j = li.len() as int;
                            assert(ls[j] == phs[i as int]);
                            let k = choose|k: int|
                                0 <= k < rs_before.len() && #[trigger] rs_before[k].overlaps_range(
                                    phs[i as int].segment_virtual_address,
                                    phs[i as int].segment_virtual_size as nat,
                                );
                            if k < old_rs.len() {
                                assert(rs_before[k] == rs_before.subrange(0, old_rs.len() as int)[k]);
                                assert(old_rs[k].overlaps_range(ls[j].segment_virtual_address, ls[j].segment_virtual_size as nat));
                                assert(!segments_fit(old_rs, ls)) by {
                                    if segments_fit(old_rs, ls) {
                                        assert(!old_rs[k].overlaps_range(ls[j].segment_virtual_address, ls[j].segment_virtual_size as nat));
                                    }
                                }
                            } else {
                                let m = k - old_rs.len();
                                assert(rs_before[old_rs.len() + m].virtual_start == li[m].segment_virtual_address);
                                lemma_segment_len(elf_bytes@, li[m]);
                                assert(ls[m] == li[m]);
                                assert(ranges_clash(
                                    ls[m].segment_virtual_address,
                                    ls[m].segment_virtual_size as nat,
                                    ls[j].segment_virtual_address,
                                    ls[j].segment_virtual_size as nat,
                                ));
                                assert(!segments_fit(old_rs, ls)) by {
                                    if segments_fit(old_rs, ls) {
                                        assert(!ranges_clash(
                                            ls[m].segment_virtual_address,
                                            ls[m].segment_virtual_size as nat,
                                            ls[j].segment_virtual_address,
                                            ls[j].segment_virtual_size as nat,
                                        ));
                                    }
                                }
                            }
                        }
                        return None;
                    },
                }
                if end > lower {
                    lower = end;
                }
                proof {
                    let ln = li.push(phs[i as int]);
                    let rs = virt_mem.regions();
                    assert(rs.subrange(0, old_rs.len() as int) =~= rs_before.subrange(0, old_rs.len() as int));
                    assert forall|m: int| 0 <= m < ln.len() implies (#[trigger] rs[old_rs.len() + m]).virtual_start
                        == ln[m].segment_virtual_address && rs[old_rs.len() + m].backing_storage@ == segment_bytes(
                        elf_bytes@,
                        ln[m],
                    ) by {
                        if m < li.len() {
                            assert(rs[old_rs.len() + m] == rs_before[old_rs.len() + m]);
                        }
                    }
                    assert forall|j: int| 0 <= j < ln.len() implies {
                        &&& (#[trigger] ln[j]).segment_virtual_address >= 1
                        &&& forall|i2: int|
                            0 <= i2 < old_rs.len() ==> !old_rs[i2].overlaps_range(
                                ln[j].segment_virtual_address,
                                ln[j].segment_virtual_size as nat,
                            )
                        &&& forall|k: int|
                            0 <= k < j ==> !ranges_clash(
                                ln[k].segment_virtual_address,
                                ln[k].segment_virtual_size as nat,
                                ln[j].segment_virtual_address,
                                ln[j].segment_virtual_size as nat,
                            )
                    } by {
                        if j == li.len() {
                            assert forall|i2: int| 0 <= i2 < old_rs.len() implies !old_rs[i2].overlaps_range(
                                ln[j].segment_virtual_address,
                                ln[j].segment_virtual_size as nat,
                            ) by {
                                assert(rs_before[i2] == rs_before.subrange(0, old_rs.len() as int)[i2]);
                                assert(!rs_before[i2].overlaps_range(
                                    phs[i as int].segment_virtual_address,
                                    phs[i as int].segment_virtual_size as nat,
                                ));
                            }
                            assert forall|k: int| 0 <= k < j implies !ranges_clash(
                                ln[k].segment_virtual_address,
                                ln[k].segment_virtual_size as nat,
                                ln[j].segment_virtual_address,
                                ln[j].segment_virtual_size as nat,
                            ) by {
                                lemma_segment_len(elf_bytes@, li[k]);
                                assert(!rs_before[old_rs.len() + k].overlaps_range(
                                    phs[i as int].segment_virtual_address,
                                    phs[i as int].segment_virtual_size as nat,
                                ));
                            }
                        } else {
                            assert(ln[j] == li[j]);
                            assert forall|k: int| 0 <= k < j implies ln[k] == li[k] by {}
                        }
                    }
                    assert(ln.drop_last() =~= li);
                }
            } else {
                proof {
                    assert(!is_load(phs[i as int]));
                    assert(loads(phs.take(i + 1)) == li);
                    assert forall|k: int| 0 <= k < i + 1 implies !is_interp(#[trigger] phs.take(i + 1)[k]) by {
                        if k < i {
                            assert(phs.take(i + 1)[k] == phs.take(i as int)[k]);
                        }
                    }
                }
            }
            i = i + 1;
        }
        proof {
            assert(phs.take(n as int) =~= phs);
        }
        Some(lower)
    }

    /// Loads the arguments `args` into `virt_mem` as C strings, with room
    /// allocated for each by `virtual_allocator`, after room for argv, the
    /// `args_len` pointers to them, which is loaded after them: the address
    /// of argv, or `None` where that cannot be done (see [`args_fit`]).
    pub fn load_args_into_virtual_memory(
        args: &[&str],
        args_len: usize,
        virt_mem: &mut LittleEndianVirtualMemory,
        virtual_allocator: &mut BasicAlloc,
    ) -> (r: Option<u64>)
        requires
            regions_wf(old(virt_mem).regions()),
            old(virtual_allocator).wf(),
            old(virtual_allocator).alloc_count + args@.len() < usize::MAX,
            args@.len() <= args_len,
            64 * args_len <= usize::MAX,
            strs_in_bounds(str_views(args@)),
        ensures
            regions_wf(final(virt_mem).regions()),
            ({
                let ss = str_views(args@);
                let a = *old(virtual_allocator);
                let first = a.base + a.next;
                &&& r is Some <==> args_fit(ranges_of(old(virt_mem).regions()), a.base as int, a.next as int, a.len as int, ss, args_len as nat)
                &&& r is Some ==> {
                    &&& r == Some(first as u64)
                    &&& allocated(
                        a,
                        *final(virtual_allocator),
                        (64 * args_len + c_sizes(ss, ss.len() as int)) as nat,
                        (ss.len() + 1) as nat,
                    )
                    &&& regions_with_strs(
                        old(virt_mem).regions(),
                        final(virt_mem).regions(),
                        first + 64 * args_len,
                        ss,
                        1,
                    )
                    &&& final(virt_mem).regions().last().virtual_start == first
                    &&& final(virt_mem).regions().last().backing_storage@ == argv_bytes(
                        first + 64 * args_len,
                        ss,
                        args_len as nat,
                    )
                }
            }),
    {
        let ghost ss = str_views(args@);
        let ghost a0 = *virtual_allocator;
        let ghost rs0 = virt_mem.regions();
        let ghost rg0 = ranges_of(rs0);
        let layout = match Layout::from_size_align(args_len * 64, 1) {
            Some(l) => l,
            None => {
                return None;
            },
        };
        let argv_ptr = virtual_allocator.allocate(layout);
        if argv_ptr == 0 {
            return None;
        }
        let ghost first_arg: int = argv_ptr + 64 * args_len;
        let mut argv: Vec<u8> = Vec::new();
        let n = args.len();
        let mut i: usize = 0;
        assert(rs0.subrange(0, rs0.len() as int) =~= rs0);
        while i < n
            invariant
                n == args@.len(),
                ss == str_views(args@),
                n <= args_len,
                64 * args_len <= isize::MAX,
                strs_in_bounds(ss),
                a0.wf(),
                a0.alloc_count + n < usize::MAX,
                argv_ptr == a0.base + a0.next,
                argv_ptr != 0,
                first_arg == argv_ptr + 64 * args_len,
                a0.next + 64 * args_len < a0.len,
                i <= n,
                rs0 == old(virt_mem).regions(),
                a0 == *old(virtual_allocator),
                regions_wf(virt_mem.regions()),
                allocated(a0, *virtual_allocator, (64 * args_len + c_sizes(ss, i as int)) as nat, (i + 1) as nat),
                virt_mem.regions().len() == rs0.len() + i,
                virt_mem.regions().subrange(0, rs0.len() as int) == rs0,
                forall|k: int|
                    0 <= k < i ==> (#[trigger] virt_mem.regions()[rs0.len() + k]).virtual_start == first_arg + c_sizes(ss, k)
                        && virt_mem.regions()[rs0.len() + k].backing_storage@ == c_string_bytes(ss[k]),
                forall|k: int| 0 <= k < i ==> c_size(#[trigger] ss[k]) <= isize::MAX,
                rg0 == ranges_of(rs0),
                forall|k: int, j: int|
                    #![trigger ss[k], rg0[j]]
                    0 <= k < i && 0 <= j < rg0.len() ==> !ranges_clash(
                        rg0[j].0,
                        rg0[j].1,
                        (first_arg + c_sizes(ss, k)) as u64,
                        c_size(ss[k]),
                    ),
                i > 0 ==> a0.next + 64 * args_len + c_sizes(ss, i as int) < a0.len,
                argv@ == pointer_bytes(first_arg, ss, i as int),
                argv@.len() == 8 * i,
            decreases n - i,
        {
            let arg: &str = args[i];
            let ghost rs_i = virt_mem.regions();
            let ghost a_i = *virtual_allocator;
            assert(ss[i as int] == arg@);
            proof {
                lemma_c_sizes_mono(ss, i as int, n as int);
            }
            let p = match load_c_string(arg, virt_mem, virtual_allocator) {
                Some(p) => p,
                None => {
                    proof {
                        if args_fit(ranges_of(rs0), a0.base as int, a0.next as int, a0.len as int, ss, args_len as nat) {
                            lemma_str_fits(rs0, rg0, rs_i, a0, a_i, ss, i as int, (64 * args_len) as nat);
                        }
                    }
                    return None;
                },
            };
            proof {
                lemma_str_added(rs0, rg0, rs_i, virt_mem.regions(), a_i, ss, i as int, first_arg);
            }
            put_u64_le(&mut argv, p);
            i = i + 1;
        }
        let ghost ptrs = argv@;
        while argv.len() < args_len * 8
            invariant
                n <= args_len,
                64 * args_len <= isize::MAX,
                argv@.len() <= 8 * args_len,
                argv@.len() >= 8 * n,
                ptrs.len() == 8 * n,
                argv@ == ptrs + Seq::new((argv@.len() - 8 * n) as nat, |_i: int| 0u8),
            decreases 8 * args_len - argv@.len(),
        {
            argv.push(0);
            assert(argv@ =~= ptrs + Seq::new((argv@.len() - 8 * n) as nat, |_i: int| 0u8));
        }
        let ghost rs_n = virt_mem.regions();
        let ghost argv_data = argv@;
        match virt_mem.add_region(argv_ptr as u64, argv) {
            Some(_) => {},
            None => {
                proof {
                    if args_fit(ranges_of(rs0), a0.base as int, a0.next as int, a0.len as int, ss, args_len as nat) {
                        assert forall|j: int| 0 <= j < rs_n.len() implies !rs_n[j].overlaps_range(
                            argv_ptr as u64,
                            argv_data.len(),
                        ) by {
                            if j < rs0.len() {
                                assert(rs_n[j] == rs_n.subrange(0, rs0.len() as int)[j]);
                                assert(!ranges_clash(rg0[j].0, rg0[j].1, argv_ptr as u64, (8 * args_len) as nat));
                            } else {
                                let k = j - rs0.len();
                                assert(rs_n[rs0.len() + k].virtual_start == first_arg + c_sizes(ss, k));
                            }
                        }
                    }
                }
                return None;
            },
        }
        proof {
            let rs = virt_mem.regions();
            assert(rs.subrange(0, rs0.len() as int) =~= rs_n.subrange(0, rs0.len() as int));
            assert forall|k: int| 0 <= k < ss.len() implies (#[trigger] rs[rs0.len() + k]).virtual_start == first_arg
                + c_sizes(ss, k) && rs[rs0.len() + k].backing_storage@ == c_string_bytes(ss[k]) by {
                assert(rs[rs0.len() + k] == rs_n[rs0.len() + k]);
            }
            assert forall|j: int| 0 <= j < rg0.len() implies !ranges_clash(
                (#[trigger] rg0[j]).0,
                rg0[j].1,
                argv_ptr as u64,
                (8 * args_len) as nat,
            ) by {
                assert(rs0[j] == rs_n[j]);
                assert(!rs_n[j].overlaps_range(argv_ptr as u64, argv_data.len()));
            }
            assert(n == 0 ==> c_sizes(ss, n as int) == 0);
            assert(argv_data =~= argv_bytes(first_arg, ss, args_len as nat));
        }
        Some(argv_ptr as u64)
    }

    /// Loads the values of the environment `env` into `virt_mem` as C
    /// strings, with room allocated for each by `virtual_allocator`: each
    /// name with the address of its value, or `None` where that cannot be
    /// done (see [`env_fits`]).
    pub fn load_env_into_virtual_memory(
        env: &[(&str, &str)],
        virt_mem: &mut LittleEndianVirtualMemory,
        virtual_allocator: &mut BasicAlloc,
    ) -> (r: Option<Vec<(String, u64)>>)
        requires
            regions_wf(old(virt_mem).regions()),
            old(virtual_allocator).wf(),
            old(virtual_allocator).alloc_count + env@.len() < usize::MAX,
            strs_in_bounds(env_values(env@)),
            forall|i: int, j: int| 0 <= i < j < env@.len() ==> (#[trigger] env@[i]).0@ != (#[trigger] env@[j]).0@,
        ensures
            regions_wf(final(virt_mem).regions()),
            ({
                let vs = env_values(env@);
                let a = *old(virtual_allocator);
                let first = a.base + a.next;
                &&& r is Some <==> env_fits(ranges_of(old(virt_mem).regions()), a.base as int, a.next as int, a.len as int, vs)
                &&& r matches Some(m) ==> {
                    &&& m@.len() == env@.len()
                    &&& env_names_distinct(m@)
                    &&& forall|i: int|
                        0 <= i < env@.len() ==> (#[trigger] m@[i]).0@ == env@[i].0@ && m@[i].1 == (first
                            + c_sizes(vs, i)) as u64
                    &&& allocated(a, *final(virtual_allocator), c_sizes(vs, vs.len() as int), vs.len())
                    &&& regions_with_strs(old(virt_mem).regions(), final(virt_mem).regions(), first, vs, 0)
                }
            }),
    {
        let ghost vs = env_values(env@);
        let ghost a0 = *virtual_allocator;
        let ghost rs0 = virt_mem.regions();
        let ghost rg0 = ranges_of(rs0);
        let ghost first: int = a0.base + a0.next;
        let mut map: Vec<(String, u64)> = Vec::new();
        let n = env.len();
        let mut i: usize = 0;
        assert(rs0.subrange(0, rs0.len() as int) =~= rs0);
        while i < n
            invariant
                n == env@.len(),
                vs == env_values(env@),
                strs_in_bounds(vs),
                a0.wf(),
                a0.alloc_count + n < usize::MAX,
                first == a0.base + a0.next,
                i <= n,
                rs0 == old(virt_mem).regions(),
                a0 == *old(virtual_allocator),
                regions_wf(virt_mem.regions()),
                allocated(a0, *virtual_allocator, c_sizes(vs, i as int), i as nat),
                virt_mem.regions().len() == rs0.len() + i,
                virt_mem.regions().subrange(0, rs0.len() as int) == rs0,
                forall|k: int|
                    0 <= k < i ==> (#[trigger] virt_mem.regions()[rs0.len() + k]).virtual_start == first + c_sizes(vs, k)
                        && virt_mem.regions()[rs0.len() + k].backing_storage@ == c_string_bytes(vs[k]),
                forall|k: int| 0 <= k < i ==> c_size(#[trigger] vs[k]) <= isize::MAX,
                rg0 == ranges_of(rs0),
                forall|k: int, j: int|
                    #![trigger vs[k], rg0[j]]
                    0 <= k < i && 0 <= j < rg0.len() ==> !ranges_clash(
                        rg0[j].0,
                        rg0[j].1,
                        (first + c_sizes(vs, k)) as u64,
                        c_size(vs[k]),
                    ),
                i > 0 ==> a0.next + c_sizes(vs, i as int) < a0.len && first != 0,
                map@.len() == i,
                forall|k: int|
                    0 <= k < i ==> (#[trigger] map@[k]).0@ == env@[k].0@ && map@[k].1 == (first + c_sizes(vs, k)) as u64,
            decreases n - i,
        {
            let (key, value) = env[i];
            let ghost rs_i = virt_mem.regions();
            let ghost a_i = *virtual_allocator;
            assert(vs[i as int] == value@);
            proof {
                lemma_c_sizes_mono(vs, i as int, n as int);
                lemma_c_sizes_at_least(vs, i as int);
            }
            let p = match load_c_string(value, virt_mem, virtual_allocator) {
                Some(p) => p,
                None => {
                    proof {
                        if env_fits(ranges_of(rs0), a0.base as int, a0.next as int, a0.len as int, vs) {
                            lemma_str_fits(rs0, rg0, rs_i, a0, a_i, vs, i as int, 0);
                        }
                    }
                    return None;
                },
            };
            proof {
                lemma_str_added(rs0, rg0, rs_i, virt_mem.regions(), a_i, vs, i as int, first);
            }
            map.push((key.to_owned(), p));
            i = i + 1;
        }
        proof {
            assert(n == 0 ==> c_sizes(vs, n as int) == 0);
        }
        Some(map)
    }

    /// A process for the program in the ELF file `elf_bytes`, with the
    /// arguments `args`, the working folder `cwd` and the environment `env`:
    /// its segments loaded, 8 KiB of stack at the end of the address space,
    /// a heap from the end of the segments to the stack holding the
    /// arguments, argv and the environment values, its processor at the
    /// program's entry with argc in register 10 and argv in register 11.
    /// `None` where the file is no loadable program or these do not fit (see
    /// [`program_fits`]).
    pub fn from_elf(elf_bytes: &[u8], args: &[&str], cwd: Path, env: &[(&str, &str)]) -> (r: Option<Self>)
        requires
            u64::MAX <= usize::MAX,
            !elf_overruns(elf_bytes@),
            elf_contents(elf_bytes@) matches Some((h, phs)) ==> segments_in_bounds(elf_bytes@.len(), phs) && (
            program_loads(h, phs) ==> segments_end(loads(phs)) + 8192 <= u64::MAX),
            64 * args@.len() <= usize::MAX,
            args@.len() + env@.len() + 1 < usize::MAX,
            strs_in_bounds(str_views(args@)),
            strs_in_bounds(env_values(env@)),
            forall|i: int, j: int| 0 <= i < j < env@.len() ==> (#[trigger] env@[i]).0@ != (#[trigger] env@[j]).0@,
        ensures
            r is Some <==> program_fits(elf_bytes@, str_views(args@), env_values(env@)),
            r matches Some(p) ==> {
                let h = (elf_contents(elf_bytes@)->0).0;
                let phs = (elf_contents(elf_bytes@)->0).1;
                let ls = loads(phs);
                let lower: int = segments_end(ls) as int;
                let ss = str_views(args@);
                let vs = env_values(env@);
                let n: int = args@.len() as int;
                let l: int = ls.len() as int;
                let env_first = lower + 64 * n + c_sizes(ss, n as int);
                let rs = p.emu.mem().regions();
                &&& p.emu.pc() == h.program_entry
                &&& p.emu.regs() == reg_write(reg_write(Seq::new(31, |i: int| 0u64), 10, n as u64), 11, lower as u64)
                &&& !p.emu.is_halted()
                &&& regions_with_segments(Seq::<VirtRegion>::empty(), rs.subrange(0, l), elf_bytes@, ls)
                &&& rs[l].virtual_start == stack_start()
                &&& rs[l].backing_storage@ == Seq::new(8192, |_i: int| 0u8)
                &&& regions_with_strs(
                    rs.subrange(0, l + 1),
                    rs.subrange(0, l + n + 2),
                    lower + 64 * n,
                    ss,
                    1,
                )
                &&& rs[l + n + 1].virtual_start == lower
                &&& rs[l + n + 1].backing_storage@ == argv_bytes(lower + 64 * n, ss, n as nat)
                &&& regions_with_strs(rs.subrange(0, l + n + 2), rs, env_first, vs, 0)
                &&& p.data.cwd == cwd
                &&& p.data.open_nodes@.len() == 0
                &&& p.data.fd_mappings@ == seq![Some(FdMapping::Stdin), Some(FdMapping::Stdout), Some(FdMapping::Stderr)]
                &&& p.data.state == ProcessState::RUNNING
                &&& p.data.pid is None
                &&& p.data.parent_pid is None
                &&& p.data.env@.len() == env@.len()
                &&& forall|i: int|
                    0 <= i < env@.len() ==> (#[trigger] p.data.env@[i]).0@ == env@[i].0@ && p.data.env@[i].1 == (
                    env_first + c_sizes(vs, i)) as u64
                &&& p.data.virtual_allocator.base == lower
                &&& p.data.virtual_allocator.len == u64::MAX - 8192 - lower
                &&& p.data.virtual_allocator.next == 64 * n + c_sizes(ss, n as int) + c_sizes(vs, vs.len() as int)
            },
    {
        let ghost b = elf_bytes@;
        let ghost ss = str_views(args@);
        let ghost vs = env_values(env@);
        let elf = match ElfFile::from_bytes(elf_bytes) {
            Some(e) => e,
            None => return None,
        };
        let ghost phs = elf.program_headers@;
        let ghost ls = loads(phs);
        if elf.header.instruction_set != InstructionSet::RiscV {
            return None;
        }
        if elf.header.elf_type != ElfType::EXECUTABLE {
            return None;
        }
        let mut virt_mem = LittleEndianVirtualMemory::new();
        let lower = match Self::load_elf_into_virtual_memory(&elf, elf_bytes, &mut virt_mem) {
            Some(l) => l,
            None => return None,
        };
        let ghost rs1 = virt_mem.regions();
        proof {
            assert forall|k: int| 0 <= k < ls.len() implies (#[trigger] rs1[k]).virtual_start
                == ls[k].segment_virtual_address && rs1[k].backing_storage@.len() == ls[k].segment_virtual_size by {
                assert(rs1[0 + k] == rs1[k]);
                lemma_segment_len(b, ls[k]);
            }
        }
        let mut stack: Vec<u8> = Vec::new();
        let mut z: usize = 0;
        while z < 8192
            invariant
                z <= 8192,
                stack@ == Seq::new(z as nat, |_i: int| 0u8),
            decreases 8192 - z,
        {
            stack.push(0);
            z = z + 1;
            assert(stack@ =~= Seq::new(z as nat, |_i: int| 0u8));
        }
        let ghost stack_data = stack@;
        match virt_mem.add_region(0xFFFF_FFFF_FFFF_E000, stack) {
            Some(_) => {},
            None => {
                proof {
                    let k = choose|k: int| 0 <= k < rs1.len() && #[trigger] rs1[k].overlaps_range(stack_start(), 8192);
                    assert(ls[k].segment_virtual_address == rs1[k].virtual_start);
                }
                return None;
            },
        }
        let ghost rs2 = virt_mem.regions();
        let ghost rg = segment_ranges(ls).push((stack_start(), 8192nat));
        proof {
            assert(ranges_of(rs2) =~= rg);
            assert forall|k: int| 0 <= k < ls.len() implies !ranges_clash(
                (#[trigger] ls[k]).segment_virtual_address,
                ls[k].segment_virtual_size as nat,
                stack_start(),
                8192,
            ) by {
                assert(!rs1[k].overlaps_range(stack_start(), stack_data.len()));
                assert(rs1[k].virtual_start == ls[k].segment_virtual_address);
            }
            assert(program_loads(elf.header, phs));
        }
        let mut virtual_allocator = BasicAlloc::from(lower as usize, (u64::MAX - (8192 + lower)) as usize, true);
        let argv = match Self::load_args_into_virtual_memory(args, args.len(), &mut virt_mem, &mut virtual_allocator) {
            Some(a) => a,
            None => return None,
        };
        let ghost rs3 = virt_mem.regions();
        let ghost n: int = args@.len() as int;
        proof {
            lemma_pointer_bytes_len(lower + 64 * n, ss, n as int);
            let rg2 = (rg + str_ranges(lower + 64 * n, ss)).push((lower as u64, (8 * n) as nat));
            assert(rs3.subrange(0, rs2.len() as int) == rs2);
            assert forall|i: int| 0 <= i < rs2.len() implies #[trigger] rs3[i] == rs2[i] by {
                assert(rs3[i] == rs3.subrange(0, rs2.len() as int)[i]);
            }
            assert forall|i: int| 0 <= i < rs3.len() implies #[trigger] ranges_of(rs3)[i] == rg2[i] by {
                if i < rs2.len() {
                    assert(ranges_of(rs2)[i] == rg[i]);
                } else if i < rs2.len() + n {
                    let k = i - rs2.len();
                    assert(rs3[rs2.len() + k].virtual_start == lower + 64 * n + c_sizes(ss, k));
                    assert(rs3[rs2.len() + k].backing_storage@ == c_string_bytes(ss[k]));
                } else {
                    assert(i == rs3.len() - 1);
                }
            }
            assert(ranges_of(rs3) =~= rg2);
        }
        let prog_env = match Self::load_env_into_virtual_memory(env, &mut virt_mem, &mut virtual_allocator) {
            Some(e) => e,
            None => return None,
        };
        let ghost rs4 = virt_mem.regions();
        let mut emu = Riscv64Cpu::from(virt_mem, elf.header.program_entry);
        emu.write_reg(10, args.len() as u64);
        emu.write_reg(11, argv);
        proof {
            assert(rs4.subrange(0, rs3.len() as int) == rs3);
            assert(rs3.subrange(0, rs2.len() as int) == rs2);
            assert(rs4.subrange(0, ls.len() + 1int) =~= rs2);
            assert(rs4.subrange(0, ls.len() + n + 2) =~= rs3);
            assert(rs4.subrange(0, ls.len() as int) =~= rs1);
            assert(rs4[ls.len() as int] == rs2[ls.len() as int]);
            assert(rs4[ls.len() + n + 1] == rs3[ls.len() + n + 1]);
            assert(rs1.subrange(0, 0) =~= Seq::<VirtRegion>::empty());
        }
        Some(Process { emu, data: ProcessData::new(cwd, prog_env, virtual_allocator) })
    }
}

/// The first address of a program's stack: its 8 KiB end the address space.
pub open spec fn stack_start() -> u64 {
    0xFFFF_FFFF_FFFF_E000
}

/// The first address and the size in memory of each of the segments `ls`.
pub open spec fn segment_ranges(ls: Seq<UniversalProgramHeader>) -> Seq<(u64, nat)> {
    Seq::new(ls.len(), |k: int| (ls[k].segment_virtual_address, ls[k].segment_virtual_size as nat))
}

/// The first address and the size of each of the strings `ss`, placed as C
/// strings one after the other from `first` on.
pub open spec fn str_ranges(first: int, ss: Seq<Seq<char>>) -> Seq<(u64, nat)> {
    Seq::new(ss.len(), |i: int| ((first + c_sizes(ss, i)) as u64, c_size(ss[i])))
}

/// The ELF file with header `h` and program headers `phs` holds a program
/// that can be loaded: a RISC-V executable that asks for no interpreter,
/// whose segments fit one after the other, none of them reaching into the
/// stack.
pub open spec fn program_loads(h: UniversalElfHeader, phs: Seq<UniversalProgramHeader>) -> bool {
    let ls = loads(phs);
    &&& h.instruction_set == InstructionSet::RiscV
    &&& h.elf_type == ElfType::EXECUTABLE
    &&& no_interp(phs)
    &&& segments_fit(Seq::<VirtRegion>::empty(), ls)
    &&& forall|k: int|
        0 <= k < ls.len() ==> !ranges_clash(
            (#[trigger] ls[k]).segment_virtual_address,
            ls[k].segment_virtual_size as nat,
            stack_start(),
            8192,
        )
}

/// The ELF file `b` holds a program that can be loaded and given the
/// arguments `ss` and the environment values `vs`: after its segments and
/// stack, the heap runs from the end of the segments to the stack, and the
/// arguments, argv and the environment values fit there (see [`args_fit`]
/// and [`env_fits`]).
pub open spec fn program_fits(b: Seq<u8>, ss: Seq<Seq<char>>, vs: Seq<Seq<char>>) -> bool {
    match elf_contents(b) {
        Some((h, phs)) => {
            let lower: int = segments_end(loads(phs)) as int;
            let len: int = u64::MAX - 8192 - lower;
            let n: nat = ss.len();
            let rg = segment_ranges(loads(phs)).push((stack_start(), 8192nat));
            let rg2 = (rg + str_ranges(lower + 64 * n, ss)).push((lower as u64, 8 * n));
            &&& program_loads(h, phs)
            &&& args_fit(rg, lower, 0, len, ss, n)
            &&& env_fits(rg2, lower, (64 * n + c_sizes(ss, n as int)) as int, len, vs)
        },
        None => false,
    }
}

/// The bytes of the pointers to the first `i` strings are eight for each.
proof fn lemma_pointer_bytes_len(first: int, ss: Seq<Seq<char>>, i: int)
    requires
        0 <= i,
    ensures
        pointer_bytes(first, ss, i).len() == 8 * i,
    decreases i,
{
    if i > 0 {
        lemma_pointer_bytes_len(first, ss, i - 1);
    }
}

/// The characters of each of the strings `ss`.
pub open spec fn str_views(ss: Seq<&str>) -> Seq<Seq<char>> {
    Seq::new(ss.len(), |i: int| ss[i]@)
}

/// Each of the strings is one that Rust can hold: its UTF-8 takes at most
/// `isize::MAX` bytes.
pub open spec fn strs_in_bounds(ss: Seq<Seq<char>>) -> bool {
    forall|i: int| 0 <= i < ss.len() ==> encode_utf8(#[trigger] ss[i]).len() <= isize::MAX
}

/// The bytes that the first `i` of the strings `ss` take as C strings, one
/// after the other.
pub open spec fn c_sizes(ss: Seq<Seq<char>>, i: int) -> nat
    decreases i,
{
    if i <= 0 {
        0
    } else {
        c_sizes(ss, i - 1) + c_size(ss[i - 1])
    }
}

/// The first address and the length of each of the regions `rs`.
pub open spec fn ranges_of(rs: Seq<VirtRegion>) -> Seq<(u64, nat)> {
    Seq::new(rs.len(), |i: int| (rs[i].virtual_start, rs[i].backing_storage@.len()))
}

/// The strings `ss`, placed as C strings one after the other from `first`
/// on, share no address with the ranges `rg` (first address and length).
pub open spec fn strs_clear_of(rg: Seq<(u64, nat)>, first: int, ss: Seq<Seq<char>>) -> bool {
    forall|i: int, j: int|
        #![trigger ss[i], rg[j]]
        0 <= i < ss.len() && 0 <= j < rg.len() ==> !ranges_clash(
            rg[j].0,
            rg[j].1,
            (first + c_sizes(ss, i)) as u64,
            c_size(ss[i]),
        )
}

/// The regions `rs` are those of `old_rs`, then one for each of the strings
/// `ss`, as a C string, one after the other from `first` on, and `extra`
/// more.
pub open spec fn regions_with_strs(
    old_rs: Seq<VirtRegion>,
    rs: Seq<VirtRegion>,
    first: int,
    ss: Seq<Seq<char>>,
    extra: nat,
) -> bool {
    &&& rs.len() == old_rs.len() + ss.len() + extra
    &&& rs.subrange(0, old_rs.len() as int) == old_rs
    &&& forall|i: int|
        0 <= i < ss.len() ==> (#[trigger] rs[old_rs.len() + i]).virtual_start == first + c_sizes(ss, i)
            && rs[old_rs.len() + i].backing_storage@ == c_string_bytes(ss[i])
}

/// A string `s` can be loaded into memory holding regions with the ranges
/// `rg`, with the allocator `a`: its layout is accepted, it fits in the
/// space left, its address is not 0 and it shares no address with a region.
pub open spec fn string_fits(rg: Seq<(u64, nat)>, a: BasicAlloc, s: Seq<char>) -> bool {
    let p = a.base + a.next;
    &&& c_size(s) <= isize::MAX
    &&& a.next + c_size(s) < a.len
    &&& p != 0
    &&& forall|j: int| 0 <= j < rg.len() ==> !ranges_clash((#[trigger] rg[j]).0, rg[j].1, p as u64, c_size(s))
}

/// What the allocator `a` becomes after `count` allocations of `size` bytes
/// in all, aligned to 1.
pub open spec fn allocated(old_a: BasicAlloc, a: BasicAlloc, size: nat, count: nat) -> bool {
    &&& a.wf()
    &&& a.base == old_a.base
    &&& a.len == old_a.len
    &&& a.is_virtual == old_a.is_virtual
    &&& a.next == old_a.next + size
    &&& a.alloc_count == old_a.alloc_count + count
    &&& a.stashed_deallocations == old_a.stashed_deallocations
}

/// The bytes of the pointers to the first `i` of the strings `ss`, placed
/// as C strings one after the other from `first` on: eight bytes each,
/// least significant first.
pub open spec fn pointer_bytes(first: int, ss: Seq<Seq<char>>, i: int) -> Seq<u8>
    decreases i,
{
    if i <= 0 {
        Seq::empty()
    } else {
        pointer_bytes(first, ss, i - 1) + le_bytes_u64((first + c_sizes(ss, i - 1)) as u64)
    }
}

/// The `args_len` pointers of argv: those to the strings `ss`, placed from
/// `first` on, then null pointers.
pub open spec fn argv_bytes(first: int, ss: Seq<Seq<char>>, args_len: nat) -> Seq<u8> {
    pointer_bytes(first, ss, ss.len() as int) + Seq::new((8 * (args_len - ss.len())) as nat, |_i: int| 0u8)
}

/// The arguments `ss` can be loaded into memory holding regions with the
/// ranges `rg`,
/// with an allocator over the `len` bytes from `base` on whose top is at
/// `next`: the layout of argv (8 bytes for each of its
/// `args_len` pointers, counted again for each byte) is accepted, it does not
/// start at 0, argv and the arguments after it fit in the space left, and
/// none of them shares an address with a region.
pub open spec fn args_fit(
    rg: Seq<(u64, nat)>,
    base: int,
    next: int,
    len: int,
    ss: Seq<Seq<char>>,
    args_len: nat,
) -> bool {
    let first = base + next;
    &&& 64 * args_len <= isize::MAX
    &&& first != 0
    &&& next + 64 * args_len + c_sizes(ss, ss.len() as int) < len
    &&& forall|i: int| 0 <= i < ss.len() ==> c_size(#[trigger] ss[i]) <= isize::MAX
    &&& forall|j: int| 0 <= j < rg.len() ==> !ranges_clash((#[trigger] rg[j]).0, rg[j].1, first as u64, 8 * args_len)
    &&& strs_clear_of(rg, first + 64 * args_len, ss)
}

/// The values of the pairs `env`.
pub open spec fn env_values(env: Seq<(&str, &str)>) -> Seq<Seq<char>> {
    Seq::new(env.len(), |i: int| env[i].1@)
}

/// The values `vs` of an environment can be loaded into memory holding
/// regions with the ranges `rg`, with an allocator over the `len` bytes from
/// `base` on whose top is at `next`: their layouts are accepted, they
/// fit in the space left, the first does not start at 0, and none shares an
/// address with a region.
pub open spec fn env_fits(rg: Seq<(u64, nat)>, base: int, next: int, len: int, vs: Seq<Seq<char>>) -> bool {
    let first = base + next;
    &&& vs.len() > 0 ==> first != 0 && next + c_sizes(vs, vs.len() as int) < len
    &&& forall|i: int| 0 <= i < vs.len() ==> c_size(#[trigger] vs[i]) <= isize::MAX
    &&& strs_clear_of(rg, first, vs)
}

/// Allocates room for `s` as a C string in the space of `alloc` and adds a
/// region with it there: its address, or `None` where that cannot be done.
fn load_c_string(s: &str, virt_mem: &mut LittleEndianVirtualMemory, alloc: &mut BasicAlloc) -> (r: Option<u64>)
    requires
        regions_wf(old(virt_mem).regions()),
        old(alloc).wf(),
        old(alloc).alloc_count < usize::MAX,
        encode_utf8(s@).len() <= isize::MAX,
    ensures
        regions_wf(final(virt_mem).regions()),
        final(alloc).wf(),
        final(alloc).base == old(alloc).base,
        final(alloc).len == old(alloc).len,
        final(alloc).is_virtual == old(alloc).is_virtual,
        r is Some <==> string_fits(ranges_of(old(virt_mem).regions()), *old(alloc), s@),
        r is Some ==> {
            let p = old(alloc).base + old(alloc).next;
            &&& r == Some(p as u64)
            &&& allocated(*old(alloc), *final(alloc), c_size(s@), 1)
            &&& regions_with_strs(old(virt_mem).regions(), final(virt_mem).regions(), p, seq![s@], 0)
        },
{
    let bytes = c_string(s);
    let layout = match Layout::from_size_align(bytes.len(), 1) {
        Some(l) => l,
        None => {
            return None;
        },
    };
    let ghost a0 = *alloc;
    let ptr = alloc.allocate(layout);
    if ptr == 0 {
        return None;
    }
    let ghost rs0 = virt_mem.regions();
    let ghost data = bytes@;
    match virt_mem.add_region(ptr as u64, bytes) {
        Some(_) => {},
        None => {
            proof {
                let k = choose|k: int|
                    0 <= k < rs0.len() && #[trigger] rs0[k].overlaps_range(ptr as u64, data.len());
                assert(ranges_of(rs0)[k] == (rs0[k].virtual_start, rs0[k].backing_storage@.len()));
            }
            return None;
        },
    }
    proof {
        let rs = virt_mem.regions();
        let ss = seq![s@];
        assert forall|j: int| 0 <= j < rs0.len() implies !ranges_clash(
            (#[trigger] ranges_of(rs0)[j]).0,
            ranges_of(rs0)[j].1,
            ptr as u64,
            data.len(),
        ) by {
            assert(!rs0[j].overlaps_range(ptr as u64, data.len()));
        }
        assert(c_sizes(ss, 0) == 0);
        assert(rs.subrange(0, rs0.len() as int) =~= rs0);
        assert(rs[rs0.len() + 0int] == rs[rs0.len() as int]);
    }
    Some(ptr as u64)
}

/// The C strings before the `i`th end no later than those before the `j`th.
proof fn lemma_c_sizes_mono(ss: Seq<Seq<char>>, i: int, j: int)
    requires
        0 <= i <= j,
    ensures
        c_sizes(ss, i) <= c_sizes(ss, j),
    decreases j,
{
    if i < j {
        lemma_c_sizes_mono(ss, i, j - 1);
    }
}

/// Where the strings `ss` can be loaded one after the other, `off` bytes
/// past the top of the allocator `a0`, the `i`th can be, after those before
/// it.
proof fn lemma_str_fits(
    rs0: Seq<VirtRegion>,
    rg0: Seq<(u64, nat)>,
    rs_i: Seq<VirtRegion>,
    a0: BasicAlloc,
    a_i: BasicAlloc,
    ss: Seq<Seq<char>>,
    i: int,
    off: nat,
)
    requires
        a0.wf(),
        rg0 == ranges_of(rs0),
        0 <= i < ss.len(),
        a0.next + off + c_sizes(ss, ss.len() as int) < a0.len,
        forall|k: int| 0 <= k < ss.len() ==> c_size(#[trigger] ss[k]) <= isize::MAX,
        strs_clear_of(rg0, a0.base + a0.next + off, ss),
        a0.base + a0.next + off + c_sizes(ss, i) != 0,
        a_i.base == a0.base,
        a_i.len == a0.len,
        a_i.next == a0.next + off + c_sizes(ss, i),
        rs_i.len() == rs0.len() + i,
        rs_i.subrange(0, rs0.len() as int) == rs0,
        forall|k: int|
            0 <= k < i ==> (#[trigger] rs_i[rs0.len() + k]).virtual_start == a0.base + a0.next + off + c_sizes(ss, k)
                && rs_i[rs0.len() + k].backing_storage@ == c_string_bytes(ss[k]),
    ensures
        string_fits(ranges_of(rs_i), a_i, ss[i]),
{
    let first = a0.base + a0.next + off;
    let rg = ranges_of(rs_i);
    lemma_c_sizes_mono(ss, i + 1, ss.len() as int);
    assert(c_size(ss[i]) <= isize::MAX);
    let p = first + c_sizes(ss, i);
    assert(p <= usize::MAX);
    assert forall|j: int| 0 <= j < rs0.len() implies !ranges_clash(rg[j].0, rg[j].1, p as u64, c_size(ss[i])) by {
        assert(rs_i[j] == rs_i.subrange(0, rs0.len() as int)[j]);
        assert(rg[j] == rg0[j]);
        assert(!ranges_clash(rg0[j].0, rg0[j].1, p as u64, c_size(ss[i])));
    }
    assert forall|j: int| rs0.len() <= j < rs_i.len() implies !ranges_clash(rg[j].0, rg[j].1, p as u64, c_size(ss[i])) by {
        let k = j - rs0.len();
        assert(rs_i[rs0.len() + k].virtual_start == first + c_sizes(ss, k));
        assert(rs_i[rs0.len() + k].backing_storage@.len() == c_size(ss[k]));
        lemma_c_sizes_mono(ss, k + 1, i);
    }
}

/// After the `i`th string is loaded, the regions hold those up to it.
proof fn lemma_str_added(
    rs0: Seq<VirtRegion>,
    rg0: Seq<(u64, nat)>,
    rs_i: Seq<VirtRegion>,
    rs: Seq<VirtRegion>,
    a_i: BasicAlloc,
    ss: Seq<Seq<char>>,
    i: int,
    first_arg: int,
)
    requires
        rg0 == ranges_of(rs0),
        0 <= i < ss.len(),
        rs_i.len() == rs0.len() + i,
        rs_i.subrange(0, rs0.len() as int) == rs0,
        forall|k: int|
            0 <= k < i ==> (#[trigger] rs_i[rs0.len() + k]).virtual_start == first_arg + c_sizes(ss, k)
                && rs_i[rs0.len() + k].backing_storage@ == c_string_bytes(ss[k]),
        forall|k: int, j: int|
            #![trigger ss[k], rg0[j]]
            0 <= k < i && 0 <= j < rg0.len() ==> !ranges_clash(
                rg0[j].0,
                rg0[j].1,
                (first_arg + c_sizes(ss, k)) as u64,
                c_size(ss[k]),
            ),
        a_i.base + a_i.next == first_arg + c_sizes(ss, i),
        string_fits(ranges_of(rs_i), a_i, ss[i]),
        regions_with_strs(rs_i, rs, a_i.base + a_i.next, seq![ss[i]], 0),
    ensures
        rs.len() == rs0.len() + i + 1,
        rs.subrange(0, rs0.len() as int) == rs0,
        forall|k: int|
            0 <= k < i + 1 ==> (#[trigger] rs[rs0.len() + k]).virtual_start == first_arg + c_sizes(ss, k)
                && rs[rs0.len() + k].backing_storage@ == c_string_bytes(ss[k]),
        forall|k: int, j: int|
            #![trigger ss[k], rg0[j]]
            0 <= k < i + 1 && 0 <= j < rg0.len() ==> !ranges_clash(
                rg0[j].0,
                rg0[j].1,
                (first_arg + c_sizes(ss, k)) as u64,
                c_size(ss[k]),
            ),
{
    let one = seq![ss[i]];
    assert(c_sizes(one, 0) == 0);
    assert(one[0] == ss[i]);
    assert(rs.subrange(0, rs0.len() as int) =~= rs_i.subrange(0, rs0.len() as int));
    assert forall|k: int| 0 <= k < i + 1 implies (#[trigger] rs[rs0.len() + k]).virtual_start == first_arg
        + c_sizes(ss, k) && rs[rs0.len() + k].backing_storage@ == c_string_bytes(ss[k]) by {
        if k < i {
            assert(rs[rs0.len() + k] == rs.subrange(0, rs_i.len() as int)[rs0.len() + k]);
        } else {
            assert(rs[rs0.len() + k] == rs[rs_i.len() + 0int]);
        }
    }
    assert forall|k: int, j: int|
        #![trigger ss[k], rg0[j]]
        0 <= k < i + 1 && 0 <= j < rg0.len() implies !ranges_clash(
        rg0[j].0,
        rg0[j].1,
        (first_arg + c_sizes(ss, k)) as u64,
        c_size(ss[k]),
    ) by {
        if k == i {
            assert(rs_i[j] == rs_i.subrange(0, rs0.len() as int)[j]);
            assert(ranges_of(rs_i)[j] == rg0[j]);
        }
    }
}

/// Each C string takes a byte at least.
proof fn lemma_c_sizes_at_least(ss: Seq<Seq<char>>, i: int)
    requires
        0 <= i,
    ensures
        c_sizes(ss, i) >= i,
    decreases i,
{
    if i > 0 {
        lemma_c_sizes_at_least(ss, i - 1);
    }
}

proof fn lemma_loads_append(a: Seq<UniversalProgramHeader>, b: Seq<UniversalProgramHeader>)
    ensures
        loads(a + b) == loads(a) + loads(b),
    decreases b.len(),
{
    if b.len() == 0 {
        assert(a + b =~= a);
        assert(loads(a) + loads(b) =~= loads(a));
    } else {
        lemma_loads_append(a, b.drop_last());
        assert((a + b).drop_last() =~= a + b.drop_last());
        assert((a + b).last() == b.last());
        if is_load(b.last()) {
            assert(loads(a + b) =~= loads(a) + loads(b));
        } else {
            assert(loads(a + b) =~= loads(a) + loads(b));
        }
    }
}

/// The segments of `phs` are those of its first `k` headers and then those of
/// the others.
proof fn lemma_loads_prefix(phs: Seq<UniversalProgramHeader>, k: int)
    requires
        0 <= k <= phs.len(),
    ensures
        loads(phs) == loads(phs.take(k)) + loads(phs.skip(k)),
{
    lemma_loads_append(phs.take(k), phs.skip(k));
    assert(phs.take(k) + phs.skip(k) =~= phs);
}

/// A loaded segment is as long as its size in memory.
proof fn lemma_segment_len(b: Seq<u8>, ph: UniversalProgramHeader)
    requires
        segment_in_bounds(b.len(), ph),
    ensures
        segment_bytes(b, ph).len() == ph.segment_virtual_size,
{
}

} // verus!
